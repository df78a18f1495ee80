use mini_redis::options::ServerOptions;
use mini_redis::rdb::RDBFileHelper;

fn helper() -> RDBFileHelper {
    RDBFileHelper::new(ServerOptions {
        rdb_file_name: Some(b"dump.rdb".to_vec()),
        rdb_dir_name: Some(b"/tmp".to_vec()),
        port: None,
        server_role: None,
    })
}

/// A minimal well-formed file: a header, the section marker, four header
/// bytes that the decoder skips, the given entries, the end marker.
fn snapshot(entries: &[u8]) -> Vec<u8> {
    let mut file = b"REDIS0011".to_vec();
    file.push(0xfe);
    file.extend_from_slice(&[0x00, 0x00, 0x00, 0x00]);
    file.extend_from_slice(entries);
    file.push(0xff);
    file
}

#[test]
fn file_path_joins_dir_and_name() {
    let h = helper();
    assert_eq!(h.file_path, Some(b"/tmp/dump.rdb".to_vec()));
    let none = RDBFileHelper::new(ServerOptions {
        rdb_file_name: Some(b"dump.rdb".to_vec()),
        rdb_dir_name: None,
        port: None,
        server_role: None,
    });
    assert_eq!(none.file_path, None);
}

#[test]
fn kv_table_is_cut_between_the_markers() {
    let file = snapshot(b"\x03foo\x03bar");
    let slice = helper().get_kv_table(&file).expect("markers are present");
    assert_eq!(slice, b"\x03foo\x03bar".to_vec());
}

#[test]
fn kv_table_fails_without_markers() {
    assert!(helper().get_kv_table(&b"REDIS0011 no markers".to_vec()).is_err());
    let mut no_end = b"REDIS0011".to_vec();
    no_end.push(0xfe);
    no_end.extend_from_slice(b"rest");
    assert!(helper().get_kv_table(&no_end).is_err());
    // the end marker before the section marker leaves no section
    let mut reversed = vec![0xff, 0x00, 0xfe];
    reversed.extend_from_slice(&[0; 8]);
    assert!(helper().get_kv_table(&reversed).is_err());
}

#[test]
fn decode_reads_one_entry_without_expiry() {
    let file = snapshot(b"\x03foo\x03bar");
    let store = helper().decode_kv_table(&file).expect("well-formed file");
    assert_eq!(store.memory.len(), 1);
    assert_eq!(store.memory[0].0, b"foo".to_vec());
    assert_eq!(store.memory[0].1.data, b"bar".to_vec());
    assert_eq!(store.memory[0].1.expiry, None);
}

#[test]
fn decode_reads_several_entries() {
    let file = snapshot(b"\x03foo\x03bar\x02hi\x05there");
    let store = helper().decode_kv_table(&file).expect("well-formed file");
    assert_eq!(store.memory.len(), 2);
    assert_eq!(store.memory[0].0, b"foo".to_vec());
    assert_eq!(store.memory[1].0, b"hi".to_vec());
    assert_eq!(store.memory[1].1.data, b"there".to_vec());
}

#[test]
fn decode_applies_a_pending_expiry_to_the_next_entry_only() {
    // 1_700_000_000_000 ms in little-endian eight bytes
    let mut entries: Vec<u8> = vec![0xfc, 0x00, 0x68, 0xe5, 0xcf, 0x8b, 0x01, 0x00, 0x00];
    entries.extend_from_slice(b"\x03foo\x03bar");
    entries.extend_from_slice(b"\x03baz\x03qux");
    let file = snapshot(&entries);
    let store = helper().decode_kv_table(&file).expect("well-formed file");
    assert_eq!(store.memory.len(), 2);
    assert_eq!(store.memory[0].0, b"foo".to_vec());
    assert_eq!(store.memory[0].1.expiry, Some(1_700_000_000_000));
    assert_eq!(store.memory[1].0, b"baz".to_vec());
    assert_eq!(store.memory[1].1.expiry, None);
}

#[test]
fn decode_takes_the_second_byte_as_length_when_the_first_is_zero() {
    let file = snapshot(b"\x00\x03foo\x03bar");
    let store = helper().decode_kv_table(&file).expect("well-formed file");
    assert_eq!(store.memory.len(), 1);
    assert_eq!(store.memory[0].0, b"foo".to_vec());
    assert_eq!(store.memory[0].1.data, b"bar".to_vec());
}

#[test]
fn decode_overwrites_a_repeated_key() {
    let file = snapshot(b"\x03foo\x03bar\x03foo\x03new");
    let store = helper().decode_kv_table(&file).expect("well-formed file");
    assert_eq!(store.memory.len(), 1);
    assert_eq!(store.memory[0].1.data, b"new".to_vec());
}

#[test]
fn decode_fails_on_a_short_read_mid_entry() {
    // the key length promises five bytes but only three follow
    let file = snapshot(b"\x05foo");
    assert!(helper().decode_kv_table(&file).is_err());
    // an expiry record cut short
    let file = snapshot(&[0xfc, 0x01, 0x02]);
    assert!(helper().decode_kv_table(&file).is_err());
    // the value length byte is missing
    let file = snapshot(b"\x03foo");
    assert!(helper().decode_kv_table(&file).is_err());
}

#[test]
fn decode_of_empty_section_is_the_empty_store() {
    let file = snapshot(b"");
    let store = helper().decode_kv_table(&file).expect("an empty section is fine");
    assert!(store.memory.is_empty());
}

#[test]
fn decode_is_deterministic() {
    let mut entries: Vec<u8> = vec![0xfc, 0x10, 0x20, 0x30, 0x00, 0x00, 0x00, 0x00, 0x00];
    entries.extend_from_slice(b"\x01a\x01x\x01b\x02yz");
    let file = snapshot(&entries);
    let one = helper().decode_kv_table(&file).expect("well-formed file");
    let two = helper().decode_kv_table(&file).expect("well-formed file");
    assert_eq!(one.memory.len(), two.memory.len());
    for i in 0..one.memory.len() {
        assert_eq!(one.memory[i].0, two.memory[i].0);
        assert_eq!(one.memory[i].1.data, two.memory[i].1.data);
        assert_eq!(one.memory[i].1.expiry, two.memory[i].1.expiry);
    }
}
