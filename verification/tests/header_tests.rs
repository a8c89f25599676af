use xs_file_transfer::header::{Header, HEADER_SIZE};

#[test]
fn header_new_keeps_lengths() {
    let h = Header::new(10, 3);
    assert_eq!(h.file_content_length(), 10);
    assert_eq!(h.sub_path_length(), 3);
}

#[test]
fn header_new_cuts_name_length_to_32_bits() {
    let h = Header::new(5, (1usize << 32) + 7);
    assert_eq!(h.sub_path_length(), 7);
    assert_eq!(h.file_content_length(), 5);
}

#[test]
fn header_to_bytes_lays_out_fields_in_memory_order() {
    let h = Header::new(0x0102_0304_0506_0708, 0x0a0b_0c0d);
    let bytes = h.to_bytes();
    assert_eq!(bytes.len(), HEADER_SIZE);
    let mut expected = Vec::new();
    expected.extend_from_slice(&0x0102_0304_0506_0708u64.to_ne_bytes());
    expected.extend_from_slice(&0x0a0b_0c0du32.to_ne_bytes());
    expected.extend_from_slice(&0u32.to_ne_bytes());
    assert_eq!(bytes, expected);
}

#[test]
fn header_to_bytes_on_little_endian_machine() {
    if 1u16.to_ne_bytes() == [1, 0] {
        let bytes = Header::new(0x0102_0304_0506_0708, 0x0a0b_0c0d).to_bytes();
        assert_eq!(bytes, vec![8, 7, 6, 5, 4, 3, 2, 1, 0x0d, 0x0c, 0x0b, 0x0a, 0, 0, 0, 0]);
    }
}

#[test]
fn header_from_bytes_reads_fields() {
    let mut bytes = Vec::new();
    bytes.extend_from_slice(&300u64.to_ne_bytes());
    bytes.extend_from_slice(&12u32.to_ne_bytes());
    bytes.extend_from_slice(&0u32.to_ne_bytes());
    let h = Header::from_bytes(&bytes);
    assert_eq!(h.file_content_length(), 300);
    assert_eq!(h.sub_path_length(), 12);
}

#[test]
fn header_bytes_roundtrip() {
    let h = Header::new(123_456_789_012, 4_000_000_000);
    let back = Header::from_bytes(&h.to_bytes());
    assert_eq!(back.file_content_length(), 123_456_789_012);
    assert_eq!(back.sub_path_length(), 4_000_000_000);
    assert_eq!(back.to_bytes(), h.to_bytes());
}

#[test]
fn header_encode_of_decode_gives_bytes_back() {
    let bytes: Vec<u8> = (1u8..=16).collect();
    assert_eq!(Header::from_bytes(&bytes).to_bytes(), bytes);
}
