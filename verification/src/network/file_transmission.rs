//! The file packet: a header, the file's sub path as UTF-8, then the file's
//! content.
//!
//! `sub path` is the file name, or a relative path ending in the file name,
//! so that the receiver can rebuild the sender's file hierarchy.
use crate::header::{fields_from_bytes, header_bytes, law_header_decode_encode, Header, HEADER_SIZE};
use crate::text::{push_str, str_from_utf8};
use vstd::prelude::*;
use vstd::string::to_string_from_display_ensures;
use vstd::utf8::{decode_utf8, encode_utf8, encode_utf8_decode_utf8, encode_utf8_valid_utf8, valid_utf8};

verus! {

/// `std::str::Utf8Error`, the error of a failed UTF-8 decoding.
#[verifier::external_type_specification]
#[verifier::external_body]
pub struct ExUtf8Error(std::str::Utf8Error);

/// `std::io::Error`, the error of a failed file operation.
#[verifier::external_type_specification]
#[verifier::external_body]
pub struct ExIoError(std::io::Error);

/// What can go wrong when a file is packed or unpacked.
pub enum Error {
    /// Reading or writing the file failed.
    FileIO(std::io::Error),
    /// The sub path in a packet is not valid UTF-8.
    InvalidFilePath(std::str::Utf8Error),
    /// The sub path of a file to send is not valid Unicode.
    FilenameDecoding,
}

/// The message of a packing error, as it is logged.
pub open spec fn error_message(e: Error, text: Seq<char>) -> bool {
    match e {
        Error::FileIO(io) => exists|s: String|
            to_string_from_display_ensures::<std::io::Error>(&io, s) && text == "File IO error: "@
                + s@,
        Error::InvalidFilePath(u) => exists|s: String|
            to_string_from_display_ensures::<std::str::Utf8Error>(&u, s) && text
                == "Invalid file path: "@ + s@,
        Error::FilenameDecoding => text == "File name not in a recognized format"@,
    }
}

impl Error {
    /// The message logged for this error.
    pub fn message(&self) -> (r: String)
        ensures
            error_message(*self, r@),
    {
        let mut r = String::new();
        match self {
            Error::FileIO(io) => {
                let text = io.to_string();
                push_str(&mut r, "File IO error: ");
                push_str(&mut r, text.as_str());
            },
            Error::InvalidFilePath(u) => {
                let text = u.to_string();
                push_str(&mut r, "Invalid file path: ");
                push_str(&mut r, text.as_str());
            },
            Error::FilenameDecoding => {
                push_str(&mut r, "File name not in a recognized format");
            },
        }
        r
    }
}

/// Packs files into packets and unpacks them.
pub struct FileTransmission;

/// The bytes of a packet for a file with sub path `sub_path` and content
/// `file_content`. The sub path length is kept in 32 bits.
pub open spec fn packet_bytes(sub_path: Seq<char>, file_content: Seq<u8>) -> Seq<u8> {
    header_bytes(
        file_content.len() as u64,
        (encode_utf8(sub_path).len() % 0x1_0000_0000) as u32,
        0,
    ) + encode_utf8(sub_path) + file_content
}

/// The sub path length a packet's header states.
pub open spec fn packet_sub_path_length(data: Seq<u8>) -> int {
    fields_from_bytes(data.subrange(0, HEADER_SIZE as int)).1 as int
}

/// The content length a packet's header states, as a `usize`.
pub open spec fn packet_content_length(data: Seq<u8>) -> int {
    fields_from_bytes(data.subrange(0, HEADER_SIZE as int)).0 as usize as int
}

/// The bytes of a packet's sub path.
pub open spec fn packet_sub_path_bytes(data: Seq<u8>) -> Seq<u8> {
    data.subrange(HEADER_SIZE as int, HEADER_SIZE + packet_sub_path_length(data))
}

/// The bytes of a packet's file content.
pub open spec fn packet_file_content(data: Seq<u8>) -> Seq<u8> {
    let start = HEADER_SIZE + packet_sub_path_length(data);
    data.subrange(start, start + packet_content_length(data))
}

/// A packet can be read without running past its end: it holds a header,
/// the sub path the header announces, and, when that sub path is valid
/// UTF-8, the content the header announces.
pub open spec fn packet_is_readable(data: Seq<u8>) -> bool {
    &&& data.len() >= HEADER_SIZE
    &&& HEADER_SIZE + packet_sub_path_length(data) <= data.len()
    &&& valid_utf8(packet_sub_path_bytes(data)) ==> HEADER_SIZE + packet_sub_path_length(data)
        + packet_content_length(data) <= data.len()
}

impl FileTransmission {
    /// The packet for a file with sub path `sub_path` and content
    /// `file_content`: its header, then the sub path's UTF-8 bytes, then the
    /// content.
    pub fn create_packet_data(sub_path: &str, file_content: &[u8]) -> (r: Vec<u8>)
        ensures
            r@ == packet_bytes(sub_path@, file_content@),
            r@.len() == HEADER_SIZE + encode_utf8(sub_path@).len() + file_content@.len(),
            r@.subrange(HEADER_SIZE as int, HEADER_SIZE + encode_utf8(sub_path@).len())
                == encode_utf8(sub_path@),
            r@.subrange(HEADER_SIZE + encode_utf8(sub_path@).len(), r@.len() as int)
                == file_content@,
    {
        let sub_path_bytes = sub_path.as_bytes();
        let header = Header::new(file_content.len(), sub_path_bytes.len());
        let mut data = header.to_bytes();
        data.extend_from_slice(sub_path_bytes);
        data.extend_from_slice(file_content);
        assert(data@ =~= packet_bytes(sub_path@, file_content@));
        proof {
            let n = encode_utf8(sub_path@).len();
            law_header_decode_encode(
                file_content@.len() as u64,
                (n % 0x1_0000_0000) as u32,
                0,
            );
            assert(data@.subrange(HEADER_SIZE as int, HEADER_SIZE + n) =~= encode_utf8(sub_path@));
            assert(data@.subrange(HEADER_SIZE + n, data@.len() as int) =~= file_content@);
        }
        data
    }

    /// Whether a packet can be read without running past its end.
    pub fn is_readable_packet(packet_data: &[u8]) -> (r: bool)
        ensures
            r == packet_is_readable(packet_data@),
    {
        if packet_data.len() < HEADER_SIZE {
            return false;
        }
        let header = Header::from_bytes(&packet_data[0..HEADER_SIZE]);
        assert(header.name_length() == packet_sub_path_length(packet_data@));
        assert(header.content_length() as usize == packet_content_length(packet_data@));
        let sub_path_length = header.sub_path_length();
        if packet_data.len() - HEADER_SIZE < sub_path_length {
            return false;
        }
        let path_end = HEADER_SIZE + sub_path_length;
        match str_from_utf8(&packet_data[HEADER_SIZE..path_end]) {
            Ok(_) => header.file_content_length() <= packet_data.len() - path_end,
            Err(_) => true,
        }
    }

    /// The sub path and the content of a file packet, or
    /// `InvalidFilePath` when the sub path is not valid UTF-8.
    pub fn read_packet_data(packet_data: &[u8]) -> (r: Result<(String, Vec<u8>), Error>)
        requires
            packet_is_readable(packet_data@),
        ensures
            r is Ok <==> valid_utf8(packet_sub_path_bytes(packet_data@)),
            r matches Ok((sub_path, file_content)) ==> {
                &&& sub_path@ == decode_utf8(packet_sub_path_bytes(packet_data@))
                &&& file_content@ == packet_file_content(packet_data@)
            },
            r matches Err(e) ==> e is InvalidFilePath,
    {
        let header = Header::from_bytes(&packet_data[0..HEADER_SIZE]);
        assert(header.name_length() == packet_sub_path_length(packet_data@));
        assert(header.content_length() as usize == packet_content_length(packet_data@));
        proof {
            assert(packet_data@.len() == packet_data.len());
        }
        let mut cursor = HEADER_SIZE;
        let sub_path_end = cursor + header.sub_path_length();
        let sub_path = match str_from_utf8(&packet_data[cursor..sub_path_end]) {
            Ok(s) => s.to_owned(),
            Err(e) => {
                return Err(Error::InvalidFilePath(e));
            },
        };
        cursor = sub_path_end;
        let content_end = cursor + header.file_content_length();
        let mut file_content: Vec<u8> = Vec::new();
        file_content.extend_from_slice(&packet_data[cursor..content_end]);
        Ok((sub_path, file_content))
    }
}

/// What is packed is what is unpacked: the packet made for a sub path
/// (shorter than 2^32 bytes in UTF-8) and a content can be read, its sub path
/// bytes decode to that sub path and its content is that content.
pub proof fn law_packet_roundtrip(sub_path: Seq<char>, file_content: Seq<u8>)
    requires
        encode_utf8(sub_path).len() <= u32::MAX,
        file_content.len() <= usize::MAX,
    ensures
        packet_is_readable(packet_bytes(sub_path, file_content)),
        valid_utf8(packet_sub_path_bytes(packet_bytes(sub_path, file_content))),
        decode_utf8(packet_sub_path_bytes(packet_bytes(sub_path, file_content))) == sub_path,
        packet_file_content(packet_bytes(sub_path, file_content)) == file_content,
{
    let path_bytes = encode_utf8(sub_path);
    let n = path_bytes.len();
    let c = file_content.len();
    let h = header_bytes(c as u64, (n % 0x1_0000_0000) as u32, 0);
    let data = packet_bytes(sub_path, file_content);
    law_header_decode_encode(c as u64, (n % 0x1_0000_0000) as u32, 0);
    assert(data.subrange(0, HEADER_SIZE as int) =~= h);
    assert(packet_sub_path_length(data) == n);
    assert((c as u64) as usize == c);
    assert(packet_content_length(data) == c);
    assert(packet_sub_path_bytes(data) =~= path_bytes);
    assert(packet_file_content(data) =~= file_content);
    encode_utf8_valid_utf8(sub_path);
    encode_utf8_decode_utf8(sub_path);
}

/// The layout of a packet: exactly a header, the sub path's UTF-8 bytes and
/// the content, nothing more. The header states the content length, the
/// sub path length (for a sub path shorter than 2^32 bytes in UTF-8) and a
/// padding of zero.
pub proof fn law_packet_layout(sub_path: Seq<char>, file_content: Seq<u8>)
    requires
        encode_utf8(sub_path).len() <= u32::MAX,
    ensures
        ({
            let data = packet_bytes(sub_path, file_content);
            let n = encode_utf8(sub_path).len();
            &&& data.len() == HEADER_SIZE + n + file_content.len()
            &&& fields_from_bytes(data.subrange(0, HEADER_SIZE as int)) == (
                file_content.len() as u64,
                n as u32,
                0u32,
            )
            &&& data.subrange(HEADER_SIZE as int, HEADER_SIZE + n) == encode_utf8(sub_path)
            &&& data.subrange(HEADER_SIZE + n, data.len() as int) == file_content
        }),
{
    let path_bytes = encode_utf8(sub_path);
    let n = path_bytes.len();
    let c = file_content.len();
    let h = header_bytes(c as u64, (n % 0x1_0000_0000) as u32, 0);
    let data = packet_bytes(sub_path, file_content);
    law_header_decode_encode(c as u64, (n % 0x1_0000_0000) as u32, 0);
    assert(data.subrange(0, HEADER_SIZE as int) =~= h);
    assert(data.subrange(HEADER_SIZE as int, HEADER_SIZE + n) =~= path_bytes);
    assert(data.subrange(HEADER_SIZE + n, data.len() as int) =~= file_content);
}

} // verus!
