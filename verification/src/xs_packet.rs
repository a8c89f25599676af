//! The packet of the older console receiver: a one-byte file name length,
//! the file name in UTF-8, eight bytes of data size and three flag bytes
//! (not used), a four-byte little-endian signed chunk size, then the chunk
//! of file content.
use vstd::bytes::{
    lemma_auto_spec_u32_to_from_le_bytes, spec_u32_from_le_bytes, spec_u32_to_le_bytes,
    u32_from_le_bytes,
};
use vstd::prelude::*;
use crate::text::str_from_utf8;
use vstd::utf8::{decode_utf8, valid_utf8};

verus! {

/// Bytes skipped between the file name and the chunk size.
pub const SKIPPED_BYTES: usize = 11;

/// The length of the file name.
pub open spec fn xs_name_length(data: Seq<u8>) -> int {
    data[0] as int
}

/// The bytes of the file name.
pub open spec fn xs_name_bytes(data: Seq<u8>) -> Seq<u8> {
    data.subrange(1, 1 + xs_name_length(data))
}

/// Where the chunk size starts.
pub open spec fn xs_chunk_size_start(data: Seq<u8>) -> int {
    1 + xs_name_length(data) + SKIPPED_BYTES
}

/// The chunk size, a little-endian `i32`.
pub open spec fn xs_chunk_size(data: Seq<u8>) -> i32 {
    let start = xs_chunk_size_start(data);
    spec_u32_from_le_bytes(data.subrange(start, start + 4)) as i32
}

/// The chunk of file content.
pub open spec fn xs_chunk(data: Seq<u8>) -> Seq<u8> {
    let start = xs_chunk_size_start(data) + 4;
    data.subrange(start, start + xs_chunk_size(data))
}

/// A packet can be read: it holds the file name its first byte announces,
/// in valid UTF-8, the skipped bytes and the chunk size, and a chunk size
/// that is not negative and fits in what is left.
pub open spec fn xs_packet_is_readable(data: Seq<u8>) -> bool {
    &&& data.len() >= 1
    &&& 1 + xs_name_length(data) <= data.len()
    &&& valid_utf8(xs_name_bytes(data))
    &&& xs_chunk_size_start(data) + 4 <= data.len()
    &&& xs_chunk_size(data) >= 0
    &&& xs_chunk_size_start(data) + 4 + xs_chunk_size(data) <= data.len()
}

/// A file read from a packet.
pub struct XsFile {
    pub file_name: String,
    pub file_content: Vec<u8>,
}

/// Whether a packet can be read (see `xs_packet_is_readable`).
pub fn is_readable_xs_packet(data: &[u8]) -> (r: bool)
    ensures
        r == xs_packet_is_readable(data@),
{
    let len = data.len();
    if len < 1 {
        return false;
    }
    let name_length = data[0] as usize;
    if len - 1 < name_length {
        return false;
    }
    if str_from_utf8(&data[1..1 + name_length]).is_err() {
        return false;
    }
    let size_start = 1 + name_length + SKIPPED_BYTES;
    if len < size_start || len - size_start < 4 {
        return false;
    }
    let chunk_size = u32_from_le_bytes(&data[size_start..size_start + 4]) as i32;
    if chunk_size < 0 {
        return false;
    }
    chunk_size as usize <= len - size_start - 4
}

/// The file name and the chunk of content of a packet.
pub fn parse_xs_packet(data: &[u8]) -> (r: XsFile)
    requires
        xs_packet_is_readable(data@),
    ensures
        r.file_name@ == decode_utf8(xs_name_bytes(data@)),
        r.file_content@ == xs_chunk(data@),
{
    let mut cursor: usize = 0;
    let file_name_length = data[0] as usize;
    cursor += 1;
    let file_name = match str_from_utf8(&data[cursor..cursor + file_name_length]) {
        Ok(s) => s.to_owned(),
        Err(_) => {
            assert(false);
            String::new()
        },
    };
    cursor += file_name_length;
    cursor += SKIPPED_BYTES;
    let chunk_size = u32_from_le_bytes(&data[cursor..cursor + 4]) as i32 as usize;
    cursor += 4;
    let mut file_content: Vec<u8> = Vec::new();
    file_content.extend_from_slice(&data[cursor..cursor + chunk_size]);
    XsFile { file_name, file_content }
}

/// A packet made of a name length byte, that many bytes of valid UTF-8, the
/// skipped bytes, a little-endian chunk size that is not negative, and at
/// least that many more bytes can be read; reading it gives the file name
/// those bytes encode and the first chunk-size bytes after the chunk size,
/// an empty chunk for a chunk size of zero.
pub proof fn law_xs_packet_layout(
    name: Seq<u8>,
    skipped: Seq<u8>,
    chunk_size: i32,
    rest: Seq<u8>,
)
    requires
        name.len() <= u8::MAX,
        valid_utf8(name),
        skipped.len() == SKIPPED_BYTES,
        0 <= chunk_size <= rest.len(),
    ensures
        ({
            let data = seq![name.len() as u8] + name + skipped + spec_u32_to_le_bytes(
                chunk_size as u32,
            ) + rest;
            &&& xs_packet_is_readable(data)
            &&& decode_utf8(xs_name_bytes(data)) == decode_utf8(name)
            &&& xs_chunk(data) == rest.take(chunk_size as int)
        }),
{
    lemma_auto_spec_u32_to_from_le_bytes();
    let size_bytes = spec_u32_to_le_bytes(chunk_size as u32);
    let data = seq![name.len() as u8] + name + skipped + size_bytes + rest;
    let n = name.len() as int;
    assert(xs_name_length(data) == n);
    assert(xs_name_bytes(data) =~= name);
    let start = xs_chunk_size_start(data);
    assert(start == 1 + n + 11);
    assert(data.subrange(start, start + 4) =~= size_bytes);
    assert(xs_chunk_size(data) == chunk_size);
    assert(xs_chunk(data) =~= rest.take(chunk_size as int));
}

} // verus!
