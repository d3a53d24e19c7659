//! The binary encoding of page fields: four-byte big-endian two's-complement
//! integers, and length-prefixed byte strings.

use byteorder::{BigEndian, ByteOrder};
use vstd::prelude::*;
use vstd::utf8::{
    decode_utf8, encode_utf8, encode_utf8_decode_utf8, encode_utf8_valid_utf8, is_ascii_chars,
    is_ascii_chars_encode_utf8, valid_utf8,
};

verus! {

/// The unsigned number that four bytes denote, most significant byte first.
pub open spec fn be_u32(b: Seq<u8>) -> int
    recommends
        b.len() == 4,
{
    b[0] * 0x100_0000 + b[1] * 0x1_0000 + b[2] * 0x100 + b[3]
}

/// The signed number that four bytes denote: big-endian two's complement.
pub open spec fn be_i32(b: Seq<u8>) -> int
    recommends
        b.len() == 4,
{
    let u = be_u32(b);
    if u >= 0x8000_0000 {
        u - 0x1_0000_0000
    } else {
        u
    }
}

/// The four bytes that encode `v`: big-endian two's complement.
pub open spec fn i32_be_bytes(v: int) -> Seq<u8>
    recommends
        i32::MIN <= v <= i32::MAX,
{
    let u = if v < 0 {
        v + 0x1_0000_0000
    } else {
        v
    };
    seq![
        (u / 0x100_0000) as u8,
        ((u / 0x1_0000) % 0x100) as u8,
        ((u / 0x100) % 0x100) as u8,
        (u % 0x100) as u8,
    ]
}

/// Decoding what was encoded gives the number back.
pub proof fn lemma_be_i32_of_bytes(v: int)
    requires
        i32::MIN <= v <= i32::MAX,
    ensures
        i32_be_bytes(v).len() == 4,
        be_i32(i32_be_bytes(v)) == v,
{
}

/// Encoding what was decoded gives the bytes back.
pub proof fn lemma_bytes_of_be_i32(b: Seq<u8>)
    requires
        b.len() == 4,
    ensures
        i32::MIN <= be_i32(b) <= i32::MAX,
        i32_be_bytes(be_i32(b)) == b,
{
    let u = be_u32(b);
    let low = b[1] * 0x1_0000 + b[2] * 0x100 + b[3];
    assert(0 <= low < 0x100_0000);
    assert(u == b[0] * 0x100_0000 + low);
    assert(u / 0x100_0000 == b[0]);
    assert((u / 0x1_0000) % 0x100 == b[1]) by {
        assert(u / 0x1_0000 == b[0] * 0x100 + b[1]);
    }
    assert((u / 0x100) % 0x100 == b[2]) by {
        assert(u / 0x100 == b[0] * 0x1_0000 + b[1] * 0x100 + b[2]);
    }
    assert(u % 0x100 == b[3]);
    assert(i32_be_bytes(be_i32(b)) =~= b);
}

/// The integer stored in the four bytes of `page` that start at `offset`.
pub open spec fn int_at(page: Seq<u8>, offset: int) -> int
    recommends
        0 <= offset,
        offset + 4 <= page.len(),
{
    be_i32(page.subrange(offset, offset + 4))
}

/// `page` with the encoding of `v` stored at `offset`.
pub open spec fn with_int(page: Seq<u8>, offset: int, v: int) -> Seq<u8>
    recommends
        0 <= offset,
        offset + 4 <= page.len(),
        i32::MIN <= v <= i32::MAX,
{
    page.subrange(0, offset) + i32_be_bytes(v) + page.subrange(offset + 4, page.len() as int)
}

/// Whether a length-prefixed field starts at `offset` and lies inside `page`:
/// the prefix is there, is not negative, and the payload it announces ends
/// within the page.
pub open spec fn field_fits(page: Seq<u8>, offset: int) -> bool {
    &&& 0 <= offset
    &&& offset + 4 <= page.len()
    &&& 0 <= int_at(page, offset)
    &&& offset + 4 + int_at(page, offset) <= page.len()
}

/// The payload of the length-prefixed field of `page` that starts at `offset`.
pub open spec fn bytes_at(page: Seq<u8>, offset: int) -> Seq<u8>
    recommends
        field_fits(page, offset),
{
    page.subrange(offset + 4, offset + 4 + int_at(page, offset))
}

/// The integer stored in front of a payload of `n` bytes: `n` itself as long
/// as it fits in 31 bits, and beyond that `n` reduced to 32 bits and read as
/// two's complement.
pub open spec fn length_prefix(n: nat) -> int {
    let m = n % 0x1_0000_0000;
    if m >= 0x8000_0000 {
        m - 0x1_0000_0000
    } else {
        m as int
    }
}

/// `page` with the length-prefixed field for `payload` stored at `offset`.
pub open spec fn with_bytes(page: Seq<u8>, offset: int, payload: Seq<u8>) -> Seq<u8>
    recommends
        0 <= offset,
        offset + 4 + payload.len() <= page.len(),
{
    page.subrange(0, offset) + i32_be_bytes(length_prefix(payload.len())) + payload
        + page.subrange(offset + 4 + payload.len(), page.len() as int)
}

/// Number of bytes that the field for `payload` occupies.
pub open spec fn field_size(payload: Seq<u8>) -> nat {
    4 + payload.len()
}

/// Number of bytes reserved for a text field whose text takes up to `strlen`
/// bytes.
pub open spec fn max_field_size(strlen: nat) -> nat {
    4 + strlen
}

/// Storing an integer changes no byte outside its four.
pub proof fn lemma_with_int_frame(page: Seq<u8>, offset: int, v: int, lo: int, hi: int)
    requires
        0 <= offset,
        offset + 4 <= page.len(),
        0 <= lo <= hi <= page.len(),
        hi <= offset || offset + 4 <= lo,
    ensures
        with_int(page, offset, v).len() == page.len(),
        with_int(page, offset, v).subrange(lo, hi) == page.subrange(lo, hi),
{
    assert(with_int(page, offset, v).subrange(lo, hi) =~= page.subrange(lo, hi));
}

/// Storing a length-prefixed field changes no byte outside the field.
pub proof fn lemma_with_bytes_frame(page: Seq<u8>, offset: int, payload: Seq<u8>, lo: int, hi: int)
    requires
        0 <= offset,
        offset + field_size(payload) <= page.len(),
        0 <= lo <= hi <= page.len(),
        hi <= offset || offset + field_size(payload) <= lo,
    ensures
        with_bytes(page, offset, payload).len() == page.len(),
        with_bytes(page, offset, payload).subrange(lo, hi) == page.subrange(lo, hi),
{
    assert(with_bytes(page, offset, payload).subrange(lo, hi) =~= page.subrange(lo, hi));
}

/// What a length-prefixed field holds depends on the bytes of the field alone:
/// a page that agrees with another on them holds the same field there.
pub proof fn lemma_field_rests_on_its_bytes(page: Seq<u8>, other: Seq<u8>, offset: int)
    requires
        field_fits(page, offset),
        other.len() == page.len(),
        other.subrange(offset, offset + field_size(bytes_at(page, offset))) == page.subrange(
            offset,
            offset + field_size(bytes_at(page, offset)),
        ),
    ensures
        field_fits(other, offset),
        int_at(other, offset) == int_at(page, offset),
        bytes_at(other, offset) == bytes_at(page, offset),
{
    let n = int_at(page, offset);
    let end = offset + 4 + n;
    assert(page.subrange(offset, offset + 4) =~= page.subrange(offset, end).subrange(0, 4));
    assert(other.subrange(offset, offset + 4) =~= other.subrange(offset, end).subrange(0, 4));
    assert(page.subrange(offset + 4, end) =~= page.subrange(offset, end).subrange(4, 4 + n));
    assert(other.subrange(offset + 4, end) =~= other.subrange(offset, end).subrange(4, 4 + n));
}

/// An integer stored at an offset is the integer found there afterwards,
/// whatever the page held before.
pub proof fn lemma_int_round_trip(page: Seq<u8>, offset: int, v: int)
    requires
        0 <= offset,
        offset + 4 <= page.len(),
        i32::MIN <= v <= i32::MAX,
    ensures
        with_int(page, offset, v).len() == page.len(),
        int_at(with_int(page, offset, v), offset) == v,
{
    lemma_be_i32_of_bytes(v);
    assert(with_int(page, offset, v).subrange(offset, offset + 4) =~= i32_be_bytes(v));
}

/// A byte string stored at an offset is the byte string found there
/// afterwards, the empty one included, as long as its length fits the signed
/// four-byte prefix.
pub proof fn lemma_bytes_round_trip(page: Seq<u8>, offset: int, payload: Seq<u8>)
    requires
        0 <= offset,
        offset + field_size(payload) <= page.len(),
        payload.len() <= i32::MAX,
    ensures
        with_bytes(page, offset, payload).len() == page.len(),
        field_fits(with_bytes(page, offset, payload), offset),
        bytes_at(with_bytes(page, offset, payload), offset) == payload,
{
    let n = payload.len() as int;
    let stored = with_bytes(page, offset, payload);
    assert(length_prefix(payload.len()) == n);
    lemma_be_i32_of_bytes(n);
    assert(stored.subrange(offset, offset + 4) =~= i32_be_bytes(n));
    assert(stored.subrange(offset + 4, offset + 4 + n) =~= payload);
}

/// A text stored at an offset is the text found there afterwards: its field
/// fits, its payload is well-formed UTF-8, and decoding the payload gives the
/// text back.
pub proof fn lemma_string_round_trip(page: Seq<u8>, offset: int, text: Seq<char>)
    requires
        0 <= offset,
        offset + field_size(encode_utf8(text)) <= page.len(),
        encode_utf8(text).len() <= i32::MAX,
    ensures
        with_bytes(page, offset, encode_utf8(text)).len() == page.len(),
        field_fits(with_bytes(page, offset, encode_utf8(text)), offset),
        valid_utf8(bytes_at(with_bytes(page, offset, encode_utf8(text)), offset)),
        decode_utf8(bytes_at(with_bytes(page, offset, encode_utf8(text)), offset)) == text,
{
    lemma_bytes_round_trip(page, offset, encode_utf8(text));
    encode_utf8_valid_utf8(text);
    encode_utf8_decode_utf8(text);
}

/// Every ASCII text encodes to exactly one byte per character.
pub proof fn lemma_ascii_text_one_byte_per_char(text: Seq<char>)
    requires
        is_ascii_chars(text),
    ensures
        encode_utf8(text).len() == text.len(),
{
    is_ascii_chars_encode_utf8(text);
}

/// The field of an ASCII text fits the space reserved for its number of
/// characters.
pub proof fn lemma_max_length_covers_field(text: Seq<char>)
    requires
        is_ascii_chars(text),
    ensures
        field_size(encode_utf8(text)) <= max_field_size(text.len()),
{
    lemma_ascii_text_one_byte_per_char(text);
}

/// A text field keeps its text as long as the space reserved for it is left
/// alone: any page that agrees with the page it was stored in on those
/// `max_field_size(reserved)` bytes holds the same text there.
pub proof fn lemma_reserved_field_is_kept(
    page: Seq<u8>,
    offset: int,
    text: Seq<char>,
    reserved: nat,
    after: Seq<u8>,
)
    requires
        0 <= offset,
        encode_utf8(text).len() <= reserved,
        encode_utf8(text).len() <= i32::MAX,
        offset + max_field_size(reserved) <= page.len(),
        after.len() == page.len(),
        after.subrange(offset, offset + max_field_size(reserved)) == with_bytes(
            page,
            offset,
            encode_utf8(text),
        ).subrange(offset, offset + max_field_size(reserved)),
    ensures
        field_fits(after, offset),
        valid_utf8(bytes_at(after, offset)),
        decode_utf8(bytes_at(after, offset)) == text,
{
    let payload = encode_utf8(text);
    let stored = with_bytes(page, offset, payload);
    let size = field_size(payload) as int;
    let space = max_field_size(reserved) as int;
    lemma_bytes_round_trip(page, offset, payload);
    lemma_string_round_trip(page, offset, text);
    assert(after.subrange(offset, offset + size) =~= after.subrange(
        offset,
        offset + space,
    ).subrange(0, size));
    assert(stored.subrange(offset, offset + size) =~= stored.subrange(
        offset,
        offset + space,
    ).subrange(0, size));
    assert(field_size(bytes_at(stored, offset)) == size);
    lemma_field_rests_on_its_bytes(stored, after, offset);
}

/// A text field for which `reserved` bytes of text were set aside, and an
/// integer stored right behind that space, do not overlap: both read back as
/// written.
pub proof fn lemma_int_behind_reserved_field(
    page: Seq<u8>,
    offset: int,
    text: Seq<char>,
    reserved: nat,
    v: int,
)
    requires
        0 <= offset,
        encode_utf8(text).len() <= reserved,
        encode_utf8(text).len() <= i32::MAX,
        offset + max_field_size(reserved) + 4 <= page.len(),
        i32::MIN <= v <= i32::MAX,
    ensures
        ({
            let next = offset + max_field_size(reserved);
            let both = with_int(with_bytes(page, offset, encode_utf8(text)), next, v);
            &&& both.len() == page.len()
            &&& field_fits(both, offset)
            &&& valid_utf8(bytes_at(both, offset))
            &&& decode_utf8(bytes_at(both, offset)) == text
            &&& int_at(both, next) == v
        }),
{
    let payload = encode_utf8(text);
    let next = offset + max_field_size(reserved);
    let first = with_bytes(page, offset, payload);
    let both = with_int(first, next, v);
    lemma_with_bytes_frame(page, offset, payload, 0, 0);
    lemma_int_round_trip(first, next, v);
    lemma_with_int_frame(first, next, v, offset, next);
    lemma_reserved_field_is_kept(page, offset, text, reserved, both);
}

/// A text field for which `reserved` bytes of text were set aside, and a
/// length-prefixed field stored right behind that space, do not overlap: both
/// read back as written.
pub proof fn lemma_bytes_behind_reserved_field(
    page: Seq<u8>,
    offset: int,
    text: Seq<char>,
    reserved: nat,
    payload: Seq<u8>,
)
    requires
        0 <= offset,
        encode_utf8(text).len() <= reserved,
        encode_utf8(text).len() <= i32::MAX,
        payload.len() <= i32::MAX,
        offset + max_field_size(reserved) + field_size(payload) <= page.len(),
    ensures
        ({
            let next = offset + max_field_size(reserved);
            let both = with_bytes(with_bytes(page, offset, encode_utf8(text)), next, payload);
            &&& both.len() == page.len()
            &&& field_fits(both, offset)
            &&& valid_utf8(bytes_at(both, offset))
            &&& decode_utf8(bytes_at(both, offset)) == text
            &&& field_fits(both, next)
            &&& bytes_at(both, next) == payload
        }),
{
    let next = offset + max_field_size(reserved);
    let first = with_bytes(page, offset, encode_utf8(text));
    let both = with_bytes(first, next, payload);
    lemma_with_bytes_frame(page, offset, encode_utf8(text), 0, 0);
    lemma_bytes_round_trip(first, next, payload);
    lemma_with_bytes_frame(first, next, payload, offset, next);
    lemma_reserved_field_is_kept(page, offset, text, reserved, both);
}

/// `byteorder::BigEndian::read_i32`: the first four bytes of `buf`, read as a
/// big-endian two's-complement integer. The call panics on a shorter buffer.
#[verifier::external_body]
pub(crate) fn read_i32_be(buf: &[u8]) -> (v: i32)
    requires
        buf@.len() >= 4,
    ensures
        v == be_i32(buf@.subrange(0, 4)),
{
    BigEndian::read_i32(buf)
}

/// `byteorder::BigEndian::write_i32`: overwrites the first four bytes of `buf`
/// with the big-endian two's-complement encoding of `v` and leaves the rest
/// as it was. The call panics on a shorter buffer.
#[verifier::external_body]
pub(crate) fn write_i32_be(buf: &mut [u8], v: i32)
    requires
        old(buf)@.len() >= 4,
    ensures
        final(buf)@ == i32_be_bytes(v as int) + old(buf)@.subrange(4, old(buf)@.len() as int),
{
    BigEndian::write_i32(buf, v)
}

/// `String::from_utf8`: succeeds exactly on well-formed UTF-8 and then yields
/// the text that the bytes encode; on anything else the call reports an
/// error, which is handed on as `None`.
#[verifier::external_body]
pub(crate) fn string_from_utf8(bytes: Vec<u8>) -> (text: Option<String>)
    ensures
        text is Some <==> valid_utf8(bytes@),
        text matches Some(s) ==> s@ == decode_utf8(bytes@),
{
    String::from_utf8(bytes).ok()
}

} // verus!
