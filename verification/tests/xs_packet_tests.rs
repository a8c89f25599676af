use xs_file_transfer::xs_packet::{is_readable_xs_packet, parse_xs_packet};

fn packet(name: &[u8], chunk_size: i32, content: &[u8]) -> Vec<u8> {
    let mut data = vec![name.len() as u8];
    data.extend_from_slice(name);
    data.extend_from_slice(&[0; 11]);
    data.extend_from_slice(&chunk_size.to_le_bytes());
    data.extend_from_slice(content);
    data
}

#[test]
fn parse_name_and_chunk() {
    let data = packet(b"notes.txt", 5, b"hello world");
    assert!(is_readable_xs_packet(&data));
    let f = parse_xs_packet(&data);
    assert_eq!(f.file_name, "notes.txt");
    assert_eq!(f.file_content, b"hello".to_vec());
}

#[test]
fn chunk_size_is_little_endian() {
    let content = vec![7u8; 300];
    let data = packet("ä".as_bytes(), 258, &content);
    let f = parse_xs_packet(&data);
    assert_eq!(f.file_name, "ä");
    assert_eq!(f.file_content.len(), 258);
}

#[test]
fn unreadable_packets() {
    assert!(!is_readable_xs_packet(&[]));
    assert!(!is_readable_xs_packet(&packet(&[0xff], 0, b"")));
    assert!(!is_readable_xs_packet(&packet(b"a", -1, b"abc")));
    assert!(!is_readable_xs_packet(&packet(b"a", 4, b"abc")));
    assert!(is_readable_xs_packet(&packet(b"a", 3, b"abc")));
    assert!(!is_readable_xs_packet(&[5, b'a']));
}
