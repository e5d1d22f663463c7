use libbig::{BigArchive, Format};

/// An archive of two entries: sixteen bytes of header, two records, four
/// bytes of padding, then the two payloads.
fn test_bytes() -> Vec<u8> {
    let mut bytes = Vec::new();
    bytes.extend_from_slice(b"BIG4");
    bytes.extend_from_slice(&[0, 0, 0, 97]);
    bytes.extend_from_slice(&[0, 0, 0, 2]);
    bytes.extend_from_slice(&[0, 0, 0, 64]);
    bytes.extend_from_slice(&[0, 0, 0, 64]);
    bytes.extend_from_slice(&[0, 0, 0, 7]);
    bytes.extend_from_slice(b"art/image.txt\0");
    bytes.extend_from_slice(&[0, 0, 0, 71]);
    bytes.extend_from_slice(&[0, 0, 0, 26]);
    bytes.extend_from_slice(b"data/test.ini\0");
    bytes.extend_from_slice(b"L253");
    bytes.extend_from_slice(b"blablba");
    bytes.extend_from_slice(b"This is a simple test file");
    bytes
}

#[test]
fn is_big4() {
    let archive = BigArchive::new(test_bytes()).unwrap();
    assert_eq!(archive.format(), Format::Big4);
}

#[test]
fn has_two_entries() {
    let archive = BigArchive::new(test_bytes()).unwrap();
    assert_eq!(archive.get_all_entry_names().len(), 2);
}

#[test]
fn contains_art_slash_image_dot_txt() {
    let archive = BigArchive::new(test_bytes()).unwrap();
    assert!(archive.contains("art/image.txt"));
}

#[test]
fn contains_data_slash_test_dot_ini() {
    let archive = BigArchive::new(test_bytes()).unwrap();
    assert!(archive.contains("data/test.ini"));
}

#[test]
fn read_entry_art_slash_image_dot_txt() {
    let archive = BigArchive::new(test_bytes()).unwrap();
    let data = archive.read_entry("art/image.txt").unwrap();
    assert_eq!(data, vec![98, 108, 97, 98, 108, 98, 97]);
}

#[test]
fn read_entry_data_slash_test_dot_ini() {
    let archive = BigArchive::new(test_bytes()).unwrap();
    let data = archive.read_entry("data/test.ini").unwrap();
    assert_eq!(data,
               vec![84, 104, 105, 115, 32, 105, 115, 32, 97, 32, 115, 105, 109, 112, 108,
                    101, 32, 116, 101, 115, 116, 32, 102, 105, 108, 101]);
}
