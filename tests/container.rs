use hab::container::{Hab, HabError};

fn header(count: u16, total_size: u32) -> Vec<u8> {
    let mut b = b"HAB0".to_vec();
    b.extend_from_slice(&[0u8; 16]);
    b.extend_from_slice(&count.to_le_bytes());
    b.extend_from_slice(&0u16.to_le_bytes());
    b.extend_from_slice(&0u32.to_le_bytes());
    b.extend_from_slice(&total_size.to_le_bytes());
    b
}

fn record(b: &mut Vec<u8>, name_offset: u32, data_offset: u32, data_size: u32) {
    b.extend_from_slice(&name_offset.to_le_bytes());
    b.extend_from_slice(&data_offset.to_le_bytes());
    b.extend_from_slice(&data_size.to_le_bytes());
    b.extend_from_slice(&0u32.to_le_bytes());
}

fn single_entry_container() -> Vec<u8> {
    let mut b = header(1, 0);
    record(&mut b, 0, 0, 3);
    b.extend_from_slice(b"a.txt\0");
    b.extend_from_slice(&[0x01, 0x02, 0x03]);
    b
}

fn two_entry_container() -> Vec<u8> {
    let mut b = header(2, 77);
    record(&mut b, 0, 0, 2);
    record(&mut b, 4, 2, 4);
    b.extend_from_slice(b"one\0two\0");
    b.extend_from_slice(&[10, 11, 20, 21, 22, 23]);
    b
}

#[test]
fn single_entry_example() {
    let mut hab = Hab::new(single_entry_container()).unwrap();
    assert_eq!(hab.num_entries(), 1);
    assert_eq!(hab.entry_name(0), Ok("a.txt"));
    let mut file = hab.get_file_by_index(0).unwrap();
    assert_eq!(file.file_name(), "a.txt");
    assert_eq!(file.read_to_end(), Ok(vec![0x01, 0x02, 0x03]));
}

#[test]
fn entry_count_matches_header() {
    let hab = Hab::new(two_entry_container()).unwrap();
    assert_eq!(hab.num_entries(), 2);
    assert_eq!(hab.entry_name(0), Ok("one"));
    assert_eq!(hab.entry_name(1), Ok("two"));
    assert_eq!(hab.total_size(), 77);
}

#[test]
fn empty_directory() {
    let mut hab = Hab::new(header(0, 0)).unwrap();
    assert_eq!(hab.num_entries(), 0);
    assert_eq!(hab.find_entry("missing"), None);
    assert!(matches!(hab.get_file_by_index(0), Err(HabError::IndexOutOfRange(0, 0))));
}

#[test]
fn extracted_length_equals_declared_size() {
    let mut hab = Hab::new(two_entry_container()).unwrap();
    let mut file = hab.get_file_by_index(1).unwrap();
    assert_eq!(file.remaining_len(), 4);
    let bytes = file.read_to_end().unwrap();
    assert_eq!(bytes, vec![20, 21, 22, 23]);
    assert_eq!(file.remaining_len(), 0);
}

#[test]
fn chunked_reads_stay_within_entry() {
    let mut hab = Hab::new(two_entry_container()).unwrap();
    let mut file = hab.get_file_by_index(1).unwrap();
    assert_eq!(file.read(3), Ok(vec![20, 21, 22]));
    assert_eq!(file.read(3), Ok(vec![23]));
    assert_eq!(file.read(3), Ok(vec![]));
    assert_eq!(file.read(100), Ok(vec![]));
}

#[test]
fn zero_length_request_reads_nothing() {
    let mut hab = Hab::new(single_entry_container()).unwrap();
    let mut file = hab.get_file_by_index(0).unwrap();
    assert_eq!(file.read(0), Ok(vec![]));
    assert_eq!(file.remaining_len(), 3);
}

#[test]
fn reopening_entry_yields_same_bytes() {
    let mut hab = Hab::new(two_entry_container()).unwrap();
    let first = hab.get_file_by_index(0).unwrap().read_to_end().unwrap();
    let other = hab.get_file_by_index(1).unwrap().read_to_end().unwrap();
    let again = hab.get_file_by_index(0).unwrap().read_to_end().unwrap();
    assert_eq!(first, vec![10, 11]);
    assert_eq!(other, vec![20, 21, 22, 23]);
    assert_eq!(first, again);
}

#[test]
fn truncated_payload_is_an_error() {
    let mut b = header(1, 0);
    record(&mut b, 0, 1, 5);
    b.extend_from_slice(b"x\0");
    b.extend_from_slice(&[1, 2, 3]);
    let len = b.len() as u64;
    let mut hab = Hab::new(b).unwrap();
    let mut file = hab.get_file_by_index(0).unwrap();
    assert_eq!(file.read_to_end(), Err(HabError::TruncatedPayload(0, len)));
    assert_eq!(file.read(1), Ok(vec![2]));
    assert_eq!(file.read(10), Ok(vec![3]));
    assert_eq!(file.remaining_len(), 3);
    assert_eq!(file.read(10), Err(HabError::TruncatedPayload(0, len)));
    assert_eq!(file.read(0), Ok(vec![]));
    assert_eq!(file.remaining_len(), 3);
}

#[test]
fn bad_magic_is_unrecognized() {
    let mut b = single_entry_container();
    b[3] = b'1';
    assert!(matches!(Hab::new(b), Err(HabError::UnrecognizedFormat)));
    assert!(matches!(Hab::new(b"ZIP!".to_vec()), Err(HabError::UnrecognizedFormat)));
}

#[test]
fn short_source_is_malformed() {
    assert!(matches!(Hab::new(b"HA".to_vec()), Err(HabError::MalformedInput(2))));
    assert!(matches!(Hab::new(b"HAB0abcdef".to_vec()), Err(HabError::MalformedInput(10))));
}

#[test]
fn five_declared_three_present_is_truncated_table() {
    let mut b = header(5, 0);
    record(&mut b, 0, 0, 1);
    record(&mut b, 2, 1, 1);
    record(&mut b, 4, 2, 1);
    b.extend_from_slice(&[0u8; 7]);
    assert!(matches!(Hab::new(b), Err(HabError::TruncatedTable(5, 3))));
}

#[test]
fn invalid_name_is_invalid_encoding() {
    let mut b = header(2, 0);
    record(&mut b, 0, 0, 0);
    record(&mut b, 2, 0, 0);
    b.extend_from_slice(&[b'a', 0, 0xff, 0xfe, 0]);
    assert!(matches!(Hab::new(b), Err(HabError::InvalidEncoding(1))));
}

#[test]
fn find_entry_missing_is_none() {
    let hab = Hab::new(two_entry_container()).unwrap();
    assert_eq!(hab.find_entry("missing"), None);
    assert_eq!(hab.find_entry("two"), Some(1));
    assert_eq!(hab.find_entry("ONE"), None);
}

#[test]
fn find_entry_returns_first_duplicate() {
    let mut b = header(3, 0);
    record(&mut b, 0, 0, 1);
    record(&mut b, 4, 1, 1);
    record(&mut b, 0, 2, 1);
    b.extend_from_slice(b"dup\0uni\0");
    b.extend_from_slice(&[7, 8, 9]);
    let hab = Hab::new(b).unwrap();
    assert_eq!(hab.find_entry("dup"), Some(0));
    assert_eq!(hab.find_entry("uni"), Some(1));
}

#[test]
fn one_past_the_end_is_out_of_range() {
    let mut hab = Hab::new(two_entry_container()).unwrap();
    let count = hab.num_entries();
    assert!(matches!(hab.get_file_by_index(count), Err(HabError::IndexOutOfRange(2, 2))));
    assert_eq!(hab.entry_name(count), Err(HabError::IndexOutOfRange(2, 2)));
}

#[test]
fn payload_starts_after_last_name_read() {
    // The last record's name lies first in the name table, so the payload
    // region begins right after it.
    let mut b = header(2, 0);
    record(&mut b, 3, 0, 2);
    record(&mut b, 0, 2, 1);
    b.extend_from_slice(b"bb\0aa\0");
    let mut hab = Hab::new(b).unwrap();
    assert_eq!(hab.entry_name(0), Ok("aa"));
    assert_eq!(hab.entry_name(1), Ok("bb"));
    assert_eq!(hab.get_file_by_index(0).unwrap().read_to_end(), Ok(b"aa".to_vec()));
    assert_eq!(hab.get_file_by_index(1).unwrap().read_to_end(), Ok(vec![0]));
}

#[test]
fn name_past_the_end_is_empty() {
    let mut b = header(1, 0);
    record(&mut b, 100, 0, 0);
    let mut hab = Hab::new(b).unwrap();
    assert_eq!(hab.entry_name(0), Ok(""));
    assert_eq!(hab.get_file_by_index(0).unwrap().read_to_end(), Ok(vec![]));
}

#[test]
fn unterminated_last_name_runs_to_end() {
    let mut b = header(1, 0);
    record(&mut b, 0, 0, 1);
    b.extend_from_slice(b"tail");
    let len = b.len() as u64;
    let mut hab = Hab::new(b).unwrap();
    assert_eq!(hab.entry_name(0), Ok("tail"));
    let mut file = hab.get_file_by_index(0).unwrap();
    assert_eq!(file.read_to_end(), Err(HabError::TruncatedPayload(0, len)));
    assert_eq!(file.read(1), Err(HabError::TruncatedPayload(0, len)));
}

#[test]
fn read_cut_at_end_of_source_returns_bytes_present() {
    // The entry starts two bytes before the end of the source and declares five.
    let mut b = header(1, 0);
    record(&mut b, 0, 0, 5);
    b.extend_from_slice(b"e\0");
    b.extend_from_slice(&[4, 5]);
    let len = b.len() as u64;
    let mut hab = Hab::new(b).unwrap();
    let mut file = hab.get_file_by_index(0).unwrap();
    assert_eq!(file.read(5), Ok(vec![4, 5]));
    assert_eq!(file.remaining_len(), 3);
    assert_eq!(file.read(5), Err(HabError::TruncatedPayload(0, len)));
}
