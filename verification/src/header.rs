//! The fixed-size header that opens every file packet.
//!
//! In memory the header is three fields laid out one after another with no
//! gap: the length of the file content (`u64`), the length of the file's
//! sub path (`u32`) and four bytes of padding (`u32`). On the wire it is
//! exactly those sixteen bytes, each field in the machine's byte order.
use vstd::bytes::*;
use vstd::endian::{endianness, Endian};
use vstd::prelude::*;

verus! {

/// Number of bytes an encoded header takes.
pub const HEADER_SIZE: usize = 16;

/// The bytes of a number as they lie in memory, given its little-endian bytes:
/// unchanged on a little-endian machine, reversed on a big-endian one.
pub open spec fn in_machine_order(le_bytes: Seq<u8>) -> Seq<u8> {
    match endianness() {
        Endian::Little => le_bytes,
        Endian::Big => le_bytes.reverse(),
    }
}

/// The in-memory bytes of a `u64`.
pub open spec fn u64_memory_bytes(x: u64) -> Seq<u8> {
    in_machine_order(spec_u64_to_le_bytes(x))
}

/// The in-memory bytes of a `u32`.
pub open spec fn u32_memory_bytes(x: u32) -> Seq<u8> {
    in_machine_order(spec_u32_to_le_bytes(x))
}

/// The `u64` whose in-memory bytes are `bytes` (eight of them).
pub open spec fn u64_from_memory_bytes(bytes: Seq<u8>) -> u64 {
    spec_u64_from_le_bytes(in_machine_order(bytes))
}

/// The `u32` whose in-memory bytes are `bytes` (four of them).
pub open spec fn u32_from_memory_bytes(bytes: Seq<u8>) -> u32 {
    spec_u32_from_le_bytes(in_machine_order(bytes))
}

/// The fields (content length, sub path length, padding) that sixteen header
/// bytes hold.
pub open spec fn fields_from_bytes(bytes: Seq<u8>) -> (u64, u32, u32) {
    (
        u64_from_memory_bytes(bytes.subrange(0, 8)),
        u32_from_memory_bytes(bytes.subrange(8, 12)),
        u32_from_memory_bytes(bytes.subrange(12, 16)),
    )
}

/// The sixteen bytes of a header with the given fields.
pub open spec fn header_bytes(content_length: u64, name_length: u32, padding: u32) -> Seq<u8> {
    u64_memory_bytes(content_length) + u32_memory_bytes(name_length) + u32_memory_bytes(padding)
}

/// `bytemuck::bytes_of` on a `u64`: a view of the value's eight bytes as they
/// lie in memory. The contract states them in the machine's byte order
/// (`vstd::endian::endianness`).
#[verifier::external_body]
fn u64_bytes_of(x: &u64) -> (r: &[u8])
    ensures
        r@ == u64_memory_bytes(*x),
{
    bytemuck::bytes_of(x)
}

/// `bytemuck::bytes_of` on a `u32`: the value's four bytes as they lie in
/// memory, in the machine's byte order.
#[verifier::external_body]
fn u32_bytes_of(x: &u32) -> (r: &[u8])
    ensures
        r@ == u32_memory_bytes(*x),
{
    bytemuck::bytes_of(x)
}

/// `bytemuck::pod_read_unaligned::<u64>`: reads eight bytes as the `u64`
/// that has them as its in-memory bytes. It panics unless there are exactly
/// eight bytes, which `requires` rules out.
#[verifier::external_body]
fn u64_pod_read(bytes: &[u8]) -> (r: u64)
    requires
        bytes@.len() == 8,
    ensures
        r == u64_from_memory_bytes(bytes@),
{
    bytemuck::pod_read_unaligned::<u64>(bytes)
}

/// `bytemuck::pod_read_unaligned::<u32>`: reads four bytes as the `u32`
/// that has them as its in-memory bytes. It panics unless there are exactly
/// four bytes, which `requires` rules out.
#[verifier::external_body]
fn u32_pod_read(bytes: &[u8]) -> (r: u32)
    requires
        bytes@.len() == 4,
    ensures
        r == u32_from_memory_bytes(bytes@),
{
    bytemuck::pod_read_unaligned::<u32>(bytes)
}

/// Reversing twice gives the sequence back.
proof fn lemma_reverse_reverse(s: Seq<u8>)
    ensures
        s.reverse().reverse() == s,
        s.reverse().len() == s.len(),
{
    assert(s.reverse().reverse() =~= s);
}

/// Reading the in-memory bytes of a number gives the number back, and the
/// bytes of a number read from `n` bytes are those bytes.
pub proof fn lemma_memory_bytes_roundtrip()
    ensures
        forall|x: u64| #[trigger] u64_memory_bytes(x).len() == 8,
        forall|x: u32| #[trigger] u32_memory_bytes(x).len() == 4,
        forall|x: u64| #[trigger] u64_from_memory_bytes(u64_memory_bytes(x)) == x,
        forall|x: u32| #[trigger] u32_from_memory_bytes(u32_memory_bytes(x)) == x,
        forall|b: Seq<u8>| b.len() == 8 ==> #[trigger] u64_memory_bytes(u64_from_memory_bytes(b)) == b,
        forall|b: Seq<u8>| b.len() == 4 ==> #[trigger] u32_memory_bytes(u32_from_memory_bytes(b)) == b,
{
    lemma_auto_spec_u64_to_from_le_bytes();
    lemma_auto_spec_u32_to_from_le_bytes();
    assert forall|s: Seq<u8>| #[trigger] s.reverse().reverse() == s && s.reverse().len() == s.len() by {
        lemma_reverse_reverse(s);
    }
    assert forall|x: u64| #[trigger] u64_memory_bytes(x).len() == 8 by {
        assert(spec_u64_to_le_bytes(x).len() == 8);
    }
    assert forall|x: u32| #[trigger] u32_memory_bytes(x).len() == 4 by {
        assert(spec_u32_to_le_bytes(x).len() == 4);
    }
    assert forall|x: u64| #[trigger] u64_from_memory_bytes(u64_memory_bytes(x)) == x by {
        let le = spec_u64_to_le_bytes(x);
        assert(in_machine_order(in_machine_order(le)) == le);
    }
    assert forall|x: u32| #[trigger] u32_from_memory_bytes(u32_memory_bytes(x)) == x by {
        let le = spec_u32_to_le_bytes(x);
        assert(in_machine_order(in_machine_order(le)) == le);
    }
    assert forall|b: Seq<u8>| b.len() == 8 implies #[trigger] u64_memory_bytes(
        u64_from_memory_bytes(b),
    ) == b by {
        let le = in_machine_order(b);
        assert(le.len() == 8);
        assert(spec_u64_to_le_bytes(spec_u64_from_le_bytes(le)) == le);
        assert(in_machine_order(le) == b);
    }
    assert forall|b: Seq<u8>| b.len() == 4 implies #[trigger] u32_memory_bytes(
        u32_from_memory_bytes(b),
    ) == b by {
        let le = in_machine_order(b);
        assert(le.len() == 4);
        assert(spec_u32_to_le_bytes(spec_u32_from_le_bytes(le)) == le);
        assert(in_machine_order(le) == b);
    }
}

/// The header of a file packet: how many bytes of file content follow, and
/// how many bytes the file's sub path takes before them.
#[derive(Clone, Copy)]
pub struct Header {
    file_content_length: u64,
    file_name_length: u32,
    _padding: u32,
}

impl Header {
    /// The content length field.
    pub closed spec fn content_length(self) -> u64 {
        self.file_content_length
    }

    /// The sub path length field.
    pub closed spec fn name_length(self) -> u32 {
        self.file_name_length
    }

    /// The padding field.
    pub closed spec fn padding(self) -> u32 {
        self._padding
    }

    /// The sixteen bytes of this header.
    pub open spec fn spec_bytes(self) -> Seq<u8> {
        header_bytes(self.content_length(), self.name_length(), self.padding())
    }

    /// A header for `file_content_length` bytes of content and a sub path of
    /// `file_name_length` bytes. The name length is kept in 32 bits: a
    /// longer length is cut to its low 32 bits.
    pub fn new(file_content_length: usize, file_name_length: usize) -> (r: Self)
        ensures
            r.content_length() == file_content_length,
            r.name_length() == file_name_length as int % 0x1_0000_0000,
            r.padding() == 0,
    {
        let name_length_64: u64 = file_name_length as u64;
        let name_length: u32 = (name_length_64 & 0xffff_ffff) as u32;
        assert(name_length_64 & 0xffff_ffff == name_length_64 % 0x1_0000_0000) by (bit_vector);
        Self { file_content_length: file_content_length as u64, file_name_length: name_length, _padding: 0 }
    }

    /// The content length field as a `usize` (cut to the width of `usize`).
    pub fn file_content_length(&self) -> (r: usize)
        ensures
            r == self.content_length() as usize,
            self.content_length() <= usize::MAX ==> r == self.content_length(),
    {
        self.file_content_length as usize
    }

    /// The sub path length field as a `usize`.
    pub fn sub_path_length(&self) -> (r: usize)
        ensures
            r == self.name_length(),
    {
        self.file_name_length as usize
    }

    /// The sixteen bytes of this header as they lie in memory.
    pub fn to_bytes(&self) -> (r: Vec<u8>)
        ensures
            r@ == self.spec_bytes(),
            r@.len() == HEADER_SIZE,
    {
        proof {
            lemma_memory_bytes_roundtrip();
        }
        let mut data: Vec<u8> = Vec::with_capacity(HEADER_SIZE);
        data.extend_from_slice(u64_bytes_of(&self.file_content_length));
        data.extend_from_slice(u32_bytes_of(&self.file_name_length));
        data.extend_from_slice(u32_bytes_of(&self._padding));
        assert(data@ =~= self.spec_bytes());
        data
    }

    /// The header whose bytes are the sixteen given bytes.
    pub fn from_bytes(bytes: &[u8]) -> (r: Self)
        requires
            bytes@.len() == HEADER_SIZE,
        ensures
            (r.content_length(), r.name_length(), r.padding()) == fields_from_bytes(bytes@),
    {
        let file_content_length = u64_pod_read(&bytes[0..8]);
        let file_name_length = u32_pod_read(&bytes[8..12]);
        let padding = u32_pod_read(&bytes[12..16]);
        Self { file_content_length, file_name_length, _padding: padding }
    }
}

/// Decoding the sixteen bytes of a header gives back the fields it was made of.
pub proof fn law_header_decode_encode(content_length: u64, name_length: u32, padding: u32)
    ensures
        header_bytes(content_length, name_length, padding).len() == HEADER_SIZE,
        fields_from_bytes(header_bytes(content_length, name_length, padding)) == (
            content_length,
            name_length,
            padding,
        ),
{
    lemma_memory_bytes_roundtrip();
    let b = header_bytes(content_length, name_length, padding);
    assert(b.subrange(0, 8) =~= u64_memory_bytes(content_length));
    assert(b.subrange(8, 12) =~= u32_memory_bytes(name_length));
    assert(b.subrange(12, 16) =~= u32_memory_bytes(padding));
}

/// Encoding the fields decoded from sixteen bytes gives back those bytes.
pub proof fn law_header_encode_decode(bytes: Seq<u8>)
    requires
        bytes.len() == HEADER_SIZE,
    ensures
        ({
            let (c, n, p) = fields_from_bytes(bytes);
            header_bytes(c, n, p) == bytes
        }),
{
    lemma_memory_bytes_roundtrip();
    let (c, n, p) = fields_from_bytes(bytes);
    assert(u64_memory_bytes(c) == bytes.subrange(0, 8));
    assert(u32_memory_bytes(n) == bytes.subrange(8, 12));
    assert(u32_memory_bytes(p) == bytes.subrange(12, 16));
    assert(header_bytes(c, n, p) =~= bytes);
}

} // verus!
