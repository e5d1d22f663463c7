use libbig::{BigArchive, Format};

/// The same archive as one literal, the way it lies in a file.
const TEST_BIG: &[u8] = b"BIG4\x00\x00\x00\x61\x00\x00\x00\x02\x00\x00\x00\x40\
\x00\x00\x00\x40\x00\x00\x00\x07art/image.txt\x00\
\x00\x00\x00\x47\x00\x00\x00\x1adata/test.ini\x00\
L253blablbaThis is a simple test file";

fn open_test_big() -> BigArchive {
    BigArchive::new(TEST_BIG.to_vec()).unwrap()
}

#[test]
fn lib_is_big4() {
    let archive = open_test_big();
    assert_eq!(archive.format(), Format::Big4);
}

#[test]
fn lib_has_two_entries() {
    let archive = open_test_big();
    assert_eq!(archive.get_all_entry_names().len(), 2);
}

#[test]
fn lib_contains_art_slash_image_dot_txt() {
    let archive = open_test_big();
    assert!(archive.contains("art/image.txt"));
}

#[test]
fn lib_contains_data_slash_test_dot_ini() {
    let archive = open_test_big();
    assert!(archive.contains("data/test.ini"));
}

#[test]
fn lib_read_entry_art_slash_image_dot_txt() {
    let archive = open_test_big();
    let data = archive.read_entry("art/image.txt").unwrap();
    assert_eq!(data, vec![98, 108, 97, 98, 108, 98, 97]);
}

#[test]
fn lib_read_entry_data_slash_test_dot_ini() {
    let archive = open_test_big();
    let data = archive.read_entry("data/test.ini").unwrap();
    assert_eq!(data,
               vec![84, 104, 105, 115, 32, 105, 115, 32, 97, 32, 115, 105, 109, 112, 108,
                    101, 32, 116, 101, 115, 116, 32, 102, 105, 108, 101]);
}

#[test]
fn whole_fixture_is_ninety_seven_bytes() {
    assert_eq!(TEST_BIG.len(), 97);
    let archive = open_test_big();
    assert_eq!(archive.total_size(), 97);
    assert_eq!(archive.junk_len(), 4);
    assert_eq!(archive.entry_count(), 2);
}
