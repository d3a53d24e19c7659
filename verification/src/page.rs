//! An in-memory image of one block, with typed accessors for its fields.

use crate::codec::{
    bytes_at, field_fits, int_at, length_prefix, max_field_size, read_i32_be, string_from_utf8,
    with_bytes, with_int, write_i32_be,
};
use vstd::pervasive::unreached;
use vstd::prelude::*;
use vstd::utf8::{decode_utf8, encode_utf8, valid_utf8};

verus! {

/// A buffer of one block's size. It holds what was read from a block, or what
/// is to be written to one, and knows nothing of which block that is. Its
/// view is its bytes.
pub struct Page {
    data: Vec<u8>,
}

impl View for Page {
    type V = Seq<u8>;

    closed spec fn view(&self) -> Seq<u8> {
        self.data@
    }
}

impl Page {
    /// A page of `block_size` zero bytes.
    pub fn new(block_size: usize) -> (page: Page)
        ensures
            page@ == Seq::new(block_size as nat, |i: int| 0u8),
    {
        let page = Page { data: vec![0u8; block_size] };
        assert(page.data@ =~= Seq::new(block_size as nat, |i: int| 0u8));
        page
    }

    /// A page over a buffer that is already filled, taken as it is.
    pub fn from_bytes(bytes: Vec<u8>) -> (page: Page)
        ensures
            page@ == bytes@,
    {
        Page { data: bytes }
    }

    /// The integer stored at `offset`: four bytes, big-endian two's
    /// complement.
    pub fn get_int(&self, offset: usize) -> (v: i32)
        requires
            offset + 4 <= self@.len(),
        ensures
            v == int_at(self@, offset as int),
    {
        assert(self.data@.len() == self.data.len());
        let field = &self.data[offset..offset + 4];
        assert(field@.subrange(0, 4) == field@);
        read_i32_be(field)
    }

    /// Stores `val` at `offset` as four bytes, big-endian two's complement,
    /// and leaves every other byte as it was.
    pub fn set_int(&mut self, offset: usize, val: i32)
        requires
            offset + 4 <= old(self)@.len(),
        ensures
            final(self)@ == with_int(old(self)@, offset as int, val as int),
            final(self)@.len() == old(self)@.len(),
    {
        let whole = self.data.as_mut_slice();
        let (_, tail) = whole.split_at_mut(offset);
        let (field, _) = tail.split_at_mut(4);
        write_i32_be(field, val);
    }

    /// The payload of the length-prefixed field at `offset`: the bytes that
    /// follow the four-byte length, as many as it says.
    pub fn get_bytes(&self, offset: usize) -> (bytes: Vec<u8>)
        requires
            field_fits(self@, offset as int),
        ensures
            bytes@ == bytes_at(self@, offset as int),
    {
        assert(self.data@.len() == self.data.len());
        let len: usize = self.get_int(offset) as usize;
        let start: usize = offset + 4;
        let end: usize = start + len;
        vstd::slice::slice_to_vec(&self.data[start..end])
    }

    /// Stores `val` at `offset` as a length-prefixed field: its length as a
    /// four-byte integer, then the bytes themselves, with nothing between or
    /// behind them. Every other byte stays as it was. The stored length is
    /// `val.len()` cast to `i32`, so a payload of more than `i32::MAX` bytes
    /// is stored whole but does not read back.
    pub fn set_bytes(&mut self, offset: usize, val: &[u8])
        requires
            offset + 4 + val@.len() <= old(self)@.len(),
        ensures
            final(self)@ == with_bytes(old(self)@, offset as int, val@),
            final(self)@.len() == old(self)@.len(),
    {
        let total: usize = self.data.len();
        let n: usize = val.len();
        let len: i32 = #[verifier::truncate] (n as i32);
        proof {
            lemma_truncated_length(n);
        }
        self.set_int(offset, len);
        let start: usize = offset + 4;
        let mut i: usize = 0;
        while i < n
            invariant
                i <= n,
                n == val@.len(),
                start == offset + 4,
                start + n <= total,
                self.data@.len() == total,
                old(self).data@.len() == total,
                self.data@ == with_int(old(self).data@, offset as int, len as int).subrange(
                    0,
                    start as int,
                ) + val@.subrange(0, i as int) + old(self).data@.subrange(
                    start + i,
                    total as int,
                ),
            decreases n - i,
        {
            self.data[start + i] = val[i];
            i += 1;
        }
    }

    /// The text of the length-prefixed field at `offset`, whose payload is
    /// UTF-8.
    pub fn get_string(&self, offset: usize) -> (text: String)
        requires
            field_fits(self@, offset as int),
            valid_utf8(bytes_at(self@, offset as int)),
        ensures
            text@ == decode_utf8(bytes_at(self@, offset as int)),
    {
        let bytes = self.get_bytes(offset);
        match string_from_utf8(bytes) {
            Some(text) => text,
            None => unreached(),
        }
    }

    /// Stores `val` at `offset` as a length-prefixed field whose payload is
    /// the UTF-8 encoding of the text.
    pub fn set_string(&mut self, offset: usize, val: &str)
        requires
            offset + 4 + encode_utf8(val@).len() <= old(self)@.len(),
        ensures
            final(self)@ == with_bytes(old(self)@, offset as int, encode_utf8(val@)),
            final(self)@.len() == old(self)@.len(),
    {
        let bytes = val.as_bytes();
        self.set_bytes(offset, bytes);
    }

    /// Number of bytes to reserve for a text field of up to `strlen`
    /// characters of one byte each: the length prefix and `strlen` bytes. For
    /// a text with characters that take more bytes, `strlen` has to be its
    /// length in bytes.
    pub fn max_length(strlen: usize) -> (size: usize)
        requires
            4 + strlen <= usize::MAX,
        ensures
            size == max_field_size(strlen as nat),
    {
        4 + strlen
    }

    /// The whole buffer.
    pub fn contents(&self) -> (bytes: &[u8])
        ensures
            bytes@ == self@,
    {
        self.data.as_slice()
    }

    /// The whole buffer, to be filled in place: what the caller leaves in it
    /// is what the page holds afterwards.
    pub fn contents_mut(&mut self) -> (bytes: &mut [u8])
        ensures
            bytes@ == old(self)@,
            final(self)@ == final(bytes)@,
    {
        self.data.as_mut_slice()
    }
}

/// Casting a length to `i32` keeps its low 32 bits, read as two's complement.
proof fn lemma_truncated_length(n: usize)
    ensures
        (n as i32) as int == length_prefix(n as nat),
{
    let w = n as u64;
    let m = w as u32;
    assert(n as i32 == w as i32) by (bit_vector)
        requires
            w == n as u64,
    ;
    assert(m == w % 0x1_0000_0000) by (bit_vector)
        requires
            m == w as u32,
    ;
    assert(w as i32 == m as i32) by (bit_vector)
        requires
            m == w as u32,
    ;
    let s = m as i32;
    assert(m < 0x8000_0000 ==> s == m) by (bit_vector)
        requires
            s == m as i32,
    ;
    assert(m >= 0x8000_0000 ==> s == m - 0x1_0000_0000) by (bit_vector)
        requires
            s == m as i32,
    ;
}

} // verus!
