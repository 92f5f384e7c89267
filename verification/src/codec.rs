//! The binary form of the records.
//!
//! An integer field takes eight bytes, least significant first. A text field
//! is the number of bytes of its UTF-8 form, as an integer field, followed by
//! those bytes. A record is its fields one after the other, so a record of
//! integers alone has one length whatever it holds, and a record with a text
//! does not.

use vstd::prelude::*;
use vstd::bytes::*;
use vstd::utf8::*;
use crate::{Code, Error};
use crate::image::{max_len, max_length, zeros};

verus! {

/// The length in bytes of one integer field.
pub const INT_LENGTH: usize = 8;

/// The bytes of one integer field.
pub open spec fn encode_int(x: u64) -> Seq<u8> {
    spec_u64_to_le_bytes(x)
}

/// Whether `bytes` begin with an integer field.
pub open spec fn int_decodable(bytes: Seq<u8>) -> bool {
    bytes.len() >= 8
}

/// The integer field that starts at `at`.
pub open spec fn decode_int_at(bytes: Seq<u8>, at: int) -> u64 {
    spec_u64_from_le_bytes(bytes.subrange(at, at + 8))
}

/// The integer field that `bytes` begin with; what follows it is ignored.
pub open spec fn decode_int(bytes: Seq<u8>) -> u64 {
    decode_int_at(bytes, 0)
}

/// The bytes of a descriptor: its text, then its two integers.
pub open spec fn encode_descriptor(path: Seq<char>, start_pos: u64, length: u64) -> Seq<u8> {
    encode_int(encode_utf8(path).len() as u64) + encode_utf8(path) + encode_int(start_pos)
        + encode_int(length)
}

/// Whether a descriptor with the text `path` can be encoded: its bytes must
/// fit into one vector.
pub open spec fn descriptor_encodable(path: Seq<char>) -> bool {
    encode_utf8(path).len() + 24 <= max_len()
}

/// Whether `bytes` begin with a descriptor: a length, that many bytes of valid
/// UTF-8, and two integers.
pub open spec fn descriptor_decodable(bytes: Seq<u8>) -> bool {
    &&& bytes.len() >= 8
    &&& 8 + decode_int(bytes) + 16 <= bytes.len()
    &&& valid_utf8(bytes.subrange(8, 8 + decode_int(bytes)))
}

/// The descriptor that `bytes` begin with; what follows it is ignored.
pub open spec fn decode_descriptor(bytes: Seq<u8>) -> (Seq<char>, u64, u64) {
    let n = decode_int(bytes) as int;
    (
        decode_utf8(bytes.subrange(8, 8 + n)),
        decode_int_at(bytes, 8 + n),
        decode_int_at(bytes, 16 + n),
    )
}

/// A record of one integer has one length, whatever the integer: that of
/// the record of zero, which is what is measured where a file is opened.
pub proof fn lemma_int_length(x: u64)
    ensures
        encode_int(x).len() == encode_int(0).len(),
        encode_int(x).len() == INT_LENGTH,
{
    lemma_auto_spec_u64_to_from_le_bytes();
}

/// An integer field decodes to the integer that was encoded, whatever bytes
/// follow it.
pub proof fn lemma_int_round_trip(x: u64, rest: Seq<u8>)
    ensures
        encode_int(x).len() == 8,
        int_decodable(encode_int(x) + rest),
        decode_int(encode_int(x) + rest) == x,
{
    lemma_auto_spec_u64_to_from_le_bytes();
    assert((encode_int(x) + rest).subrange(0, 8) =~= encode_int(x));
}

/// Where the eight bytes at `at` are those of `x`, the integer field at `at`
/// is `x`.
pub proof fn lemma_int_at(bytes: Seq<u8>, at: int, x: u64)
    requires
        0 <= at,
        at + 8 <= bytes.len(),
        bytes.subrange(at, at + 8) == encode_int(x),
    ensures
        decode_int_at(bytes, at) == x,
{
    lemma_auto_spec_u64_to_from_le_bytes();
}

/// The integer field of zero is eight zero bytes.
pub proof fn lemma_int_zero()
    ensures
        encode_int(0) == zeros(8),
{
    spec_u64_to_le_bytes_to_open(0);
    assert(0u64 & 0xff == 0 && (0u64 >> 8) & 0xff == 0 && (0u64 >> 16) & 0xff == 0 && (0u64 >> 24)
        & 0xff == 0 && (0u64 >> 32) & 0xff == 0 && (0u64 >> 40) & 0xff == 0 && (0u64 >> 48) & 0xff
        == 0 && (0u64 >> 56) & 0xff == 0) by (bit_vector);
    assert(encode_int(0) =~= zeros(8));
}

/// A descriptor decodes to the text and the integers that were encoded,
/// whatever bytes follow it.
pub proof fn lemma_descriptor_round_trip(
    path: Seq<char>,
    start_pos: u64,
    length: u64,
    rest: Seq<u8>,
)
    requires
        encode_utf8(path).len() <= u64::MAX,
    ensures
        encode_descriptor(path, start_pos, length).len() == encode_utf8(path).len() + 24,
        descriptor_decodable(encode_descriptor(path, start_pos, length) + rest),
        decode_descriptor(encode_descriptor(path, start_pos, length) + rest) == (
            path,
            start_pos,
            length,
        ),
{
    lemma_auto_spec_u64_to_from_le_bytes();
    let text = encode_utf8(path);
    let n = text.len() as int;
    let bytes = encode_descriptor(path, start_pos, length) + rest;
    assert(bytes.subrange(0, 8) =~= encode_int(n as u64));
    assert(decode_int(bytes) == n);
    assert(bytes.subrange(8, 8 + n) =~= text);
    assert(bytes.subrange(8 + n, 16 + n) =~= encode_int(start_pos));
    assert(bytes.subrange(16 + n, 24 + n) =~= encode_int(length));
    encode_utf8_valid_utf8(path);
    encode_utf8_decode_utf8(path);
}

/// What can go wrong inside `bincode`; nothing is read from it but its text.
#[verifier::external_type_specification]
#[verifier::external_body]
pub struct ExErrorKind(bincode::ErrorKind);

/// `bincode::serialize` on a `u64`. With the options that function fixes
/// (integers at fixed width, little endian, no size limit) and a vector as the
/// writer, it returns `Ok` with the eight bytes of the integer, least
/// significant first.
#[verifier::external_body]
fn serialize_u64(value: u64) -> (r: Result<Vec<u8>, bincode::Error>)
    ensures
        r is Ok,
        r->Ok_0@ == encode_int(value),
{
    bincode::serialize(&value)
}

/// `bincode::serialize` on a tuple of a text and two `u64`. A tuple is written
/// as its elements in order, with nothing between them; a text as the number
/// of its bytes, written as a `u64`, followed by the bytes. With no size limit
/// and a vector as the writer the call returns `Ok`. The vector it fills is
/// made with the full length at once, so the text must leave room for the
/// twenty-four bytes of the three integers.
#[verifier::external_body]
fn serialize_descriptor(path: &str, start_pos: u64, length: u64) -> (r: Result<
    Vec<u8>,
    bincode::Error,
>)
    requires
        descriptor_encodable(path@),
    ensures
        r is Ok,
        r->Ok_0@ == encode_descriptor(path@, start_pos, length),
{
    bincode::serialize(&(path, start_pos, length))
}

/// `bincode::deserialize` to a `u64`. It reads eight bytes, least significant
/// first, fails where the slice holds fewer, and ignores what follows them.
#[verifier::external_body]
fn deserialize_u64(bytes: &[u8]) -> (r: Result<u64, bincode::Error>)
    ensures
        r is Ok <==> int_decodable(bytes@),
        r is Ok ==> r->Ok_0 == decode_int(bytes@),
{
    bincode::deserialize::<u64>(bytes)
}

/// `bincode::deserialize` to a tuple of a `String` and two `u64`. It reads the
/// number of bytes of the text, then the text, which must be there in full and
/// be valid UTF-8, then the two integers, and ignores what follows them. It
/// fails where the slice ends before the last integer does.
#[verifier::external_body]
fn deserialize_descriptor(bytes: &[u8]) -> (r: Result<(String, u64, u64), bincode::Error>)
    ensures
        r is Ok <==> descriptor_decodable(bytes@),
        r is Ok ==> (r->Ok_0.0@, r->Ok_0.1, r->Ok_0.2) == decode_descriptor(bytes@),
{
    bincode::deserialize::<(String, u64, u64)>(bytes)
}

/// The text of a `bincode::Error`, as its `Display` gives it.
#[verifier::external_body]
fn error_text(err: &bincode::Error) -> String {
    err.to_string()
}

/// Encodes one integer field.
pub fn to_vec(value: u64) -> (r: Result<Vec<u8>, Error>)
    ensures
        r is Ok,
        r->Ok_0@ == encode_int(value),
        r->Ok_0@.len() == 8,
{
    proof {
        lemma_int_round_trip(value, Seq::empty());
    }
    match serialize_u64(value) {
        Ok(c) => Ok(c),
        Err(err) => Err(Error { code: Some(Code::SerdeError(Some(error_text(&err)))) }),
    }
}

/// Decodes the integer field that `bytes` begin with.
pub fn from_slice(bytes: &[u8]) -> (r: Result<u64, Error>)
    ensures
        int_decodable(bytes@) ==> r is Ok && r->Ok_0 == decode_int(bytes@),
        !int_decodable(bytes@) ==> r is Err && r->Err_0.is_deserde(),
{
    match deserialize_u64(bytes) {
        Ok(v) => Ok(v),
        Err(err) => Err(Error { code: Some(Code::DeserdeError(Some(error_text(&err)))) }),
    }
}

/// Encodes a descriptor. Fails exactly where the text is so long that the
/// bytes of the descriptor would not fit into one vector.
pub fn descriptor_to_vec(path: &str, start_pos: u64, length: u64) -> (r: Result<Vec<u8>, Error>)
    ensures
        descriptor_encodable(path@) ==> r is Ok && r->Ok_0@ == encode_descriptor(
            path@,
            start_pos,
            length,
        ) && r->Ok_0@.len() == encode_utf8(path@).len() + 24,
        !descriptor_encodable(path@) ==> r is Err && r->Err_0.is_serde(),
{
    let text: &[u8] = path.as_bytes();
    let limit: usize = max_length();
    if text.len() > limit - 24 {
        return Err(Error::serde("the text is too long for its descriptor to fit into a vector"));
    }
    proof {
        lemma_descriptor_round_trip(path@, start_pos, length, Seq::empty());
    }
    match serialize_descriptor(path, start_pos, length) {
        Ok(c) => Ok(c),
        Err(err) => Err(Error { code: Some(Code::SerdeError(Some(error_text(&err)))) }),
    }
}

/// Decodes the descriptor that `bytes` begin with.
pub fn descriptor_from_slice(bytes: &[u8]) -> (r: Result<(String, u64, u64), Error>)
    ensures
        descriptor_decodable(bytes@) ==> r is Ok && (r->Ok_0.0@, r->Ok_0.1, r->Ok_0.2)
            == decode_descriptor(bytes@),
        !descriptor_decodable(bytes@) ==> r is Err && r->Err_0.is_deserde(),
{
    match deserialize_descriptor(bytes) {
        Ok(d) => Ok(d),
        Err(err) => Err(Error { code: Some(Code::DeserdeError(Some(error_text(&err)))) }),
    }
}

/// The length in bytes of a record of one integer, found by encoding one.
/// It is measured once, where a file is opened, and kept from then on.
#[derive(Debug, Clone, Copy)]
pub struct RecordLength {
    length: usize,
}

impl RecordLength {
    #[verifier::type_invariant]
    closed spec fn holds(&self) -> bool {
        self.length == INT_LENGTH
    }

    /// Measures the record by encoding a zero.
    pub fn measure() -> (r: Result<RecordLength, Error>)
        ensures
            r is Ok,
    {
        match to_vec(0) {
            Ok(v) => Ok(RecordLength { length: v.len() }),
            Err(err) => Err(err),
        }
    }

    /// The measured length.
    pub fn get(&self) -> (length: usize)
        ensures
            length == INT_LENGTH,
    {
        proof {
            use_type_invariant(self);
        }
        self.length
    }
}

} // verus!
