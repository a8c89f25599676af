use xs_file_transfer::header::HEADER_SIZE;
use xs_file_transfer::network::file_transmission::{Error, FileTransmission};

fn header(content_length: u64, name_length: u32) -> Vec<u8> {
    let mut bytes = Vec::new();
    bytes.extend_from_slice(&content_length.to_ne_bytes());
    bytes.extend_from_slice(&name_length.to_ne_bytes());
    bytes.extend_from_slice(&0u32.to_ne_bytes());
    bytes
}

#[test]
fn create_packet_data_lays_out_header_path_content() {
    let data = FileTransmission::create_packet_data("dir/a.txt", &[1, 2, 3]);
    let mut expected = header(3, 9);
    expected.extend_from_slice(b"dir/a.txt");
    expected.extend_from_slice(&[1, 2, 3]);
    assert_eq!(data, expected);
}

#[test]
fn create_packet_data_counts_path_bytes_not_chars() {
    let data = FileTransmission::create_packet_data("dätei", &[]);
    assert_eq!(data.len(), HEADER_SIZE + 6);
    assert_eq!(&data[..HEADER_SIZE], &header(0, 6)[..]);
}

#[test]
fn read_packet_data_gives_path_and_content() {
    let mut data = header(2, 3);
    data.extend_from_slice(b"x/y");
    data.extend_from_slice(&[9, 8]);
    data.extend_from_slice(&[7, 7, 7]);
    assert!(FileTransmission::is_readable_packet(&data));
    match FileTransmission::read_packet_data(&data) {
        Ok((path, content)) => {
            assert_eq!(path, "x/y");
            assert_eq!(content, vec![9, 8]);
        }
        Err(_) => panic!("packet should be readable"),
    }
}

#[test]
fn packet_roundtrip() {
    let content: Vec<u8> = (0..=255u8).collect();
    let data = FileTransmission::create_packet_data("ordner/dätei ✓.bin", &content);
    assert!(FileTransmission::is_readable_packet(&data));
    match FileTransmission::read_packet_data(&data) {
        Ok((path, back)) => {
            assert_eq!(path, "ordner/dätei ✓.bin");
            assert_eq!(back, content);
        }
        Err(_) => panic!("packet should be readable"),
    }
}

#[test]
fn packet_roundtrip_empty_path_and_content() {
    let data = FileTransmission::create_packet_data("", &[]);
    assert_eq!(data.len(), HEADER_SIZE);
    match FileTransmission::read_packet_data(&data) {
        Ok((path, back)) => {
            assert_eq!(path, "");
            assert!(back.is_empty());
        }
        Err(_) => panic!("packet should be readable"),
    }
}

#[test]
fn read_packet_data_invalid_path_is_invalid_file_path() {
    let mut data = header(1, 2);
    data.extend_from_slice(&[0xff, 0xfe]);
    data.push(5);
    assert!(FileTransmission::is_readable_packet(&data));
    match FileTransmission::read_packet_data(&data) {
        Err(Error::InvalidFilePath(e)) => assert_eq!(e.valid_up_to(), 0),
        _ => panic!("expected InvalidFilePath"),
    }
}

#[test]
fn invalid_path_is_reported_before_content_is_checked() {
    let mut data = header(1000, 1);
    data.push(0x80);
    assert!(FileTransmission::is_readable_packet(&data));
    assert!(matches!(
        FileTransmission::read_packet_data(&data),
        Err(Error::InvalidFilePath(_))
    ));
}

#[test]
fn short_packets_are_not_readable() {
    assert!(!FileTransmission::is_readable_packet(&[0; 15]));
    let mut data = header(0, 4);
    data.extend_from_slice(b"abc");
    assert!(!FileTransmission::is_readable_packet(&data));
    let mut data = header(5, 1);
    data.extend_from_slice(b"a1234");
    assert!(!FileTransmission::is_readable_packet(&data));
    data.push(0);
    assert!(FileTransmission::is_readable_packet(&data));
}

#[test]
fn file_transmission_error_messages() {
    assert_eq!(
        Error::FilenameDecoding.message(),
        "File name not in a recognized format"
    );
    let io = std::io::Error::new(std::io::ErrorKind::NotFound, "no such file");
    assert_eq!(Error::FileIO(io).message(), "File IO error: no such file");
    let bytes: Vec<u8> = vec![0x61, 0xff];
    let utf8 = std::str::from_utf8(&bytes).unwrap_err();
    let expected = format!("Invalid file path: {}", utf8);
    assert_eq!(Error::InvalidFilePath(utf8).message(), expected);
}
