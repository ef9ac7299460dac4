use vdfr::{find_keys, read_kv, read_string, read_string_table, MAX_DEPTH};
use vdfr::{AppInfo, PackageInfo, Value, VdfrError};

const VERSION_28: u32 = 0x7564428;
const VERSION_29: u32 = 0x7564429;

fn u32le(out: &mut Vec<u8>, v: u32) {
    out.extend_from_slice(&v.to_le_bytes());
}

fn cstr(out: &mut Vec<u8>, s: &str) {
    out.extend_from_slice(s.as_bytes());
    out.push(0);
}

fn app_header(out: &mut Vec<u8>, id: u32) {
    u32le(out, id);
    u32le(out, 100); // size
    u32le(out, 2); // state
    u32le(out, 1_700_000_000); // last update
    out.extend_from_slice(&0x0102_0304_0506_0708u64.to_le_bytes()); // access token
    out.extend_from_slice(&[0xAA; 20]); // text checksum
    u32le(out, 55); // change number
    out.extend_from_slice(&[0xBB; 20]); // binary checksum
}

fn package_header(out: &mut Vec<u8>, id: u32) {
    u32le(out, id);
    out.extend_from_slice(&[0xCC; 20]);
    u32le(out, 9);
    out.extend_from_slice(&42u64.to_le_bytes());
}

#[test]
fn nested_tree_lookup() {
    // {"a": {"b": 42}}
    let mut d = Vec::new();
    d.push(0x00);
    cstr(&mut d, "a");
    d.push(0x02);
    cstr(&mut d, "b");
    d.extend_from_slice(&42i32.to_le_bytes());
    d.push(0x08);
    d.push(0x08);
    let (kv, end) = read_kv(&d, 0, false, &None).unwrap();
    assert_eq!(end, d.len());
    assert!(matches!(find_keys(&kv, &["a", "b"]), Some(Value::Int32Type(42))));
    assert!(find_keys(&kv, &["a", "c"]).is_none());
    assert!(find_keys(&kv, &["a", "b", "c"]).is_none());
    assert!(find_keys(&kv, &[]).is_none());
    assert!(matches!(find_keys(&kv, &["a"]), Some(Value::KeyValueType(_))));
}

#[test]
fn unknown_tag_is_invalid_type() {
    let mut d = Vec::new();
    d.push(0xFF);
    cstr(&mut d, "k");
    d.extend_from_slice(&[1, 2, 3, 4]);
    d.push(0x08);
    assert_eq!(read_kv(&d, 0, false, &None).unwrap_err(), VdfrError::InvalidType(0xFF));
}

#[test]
fn unknown_tag_in_package_file() {
    let mut d = Vec::new();
    u32le(&mut d, 0x06565527);
    u32le(&mut d, 1);
    package_header(&mut d, 5);
    d.push(0xFF);
    cstr(&mut d, "k");
    assert_eq!(PackageInfo::read(&d).unwrap_err(), VdfrError::InvalidType(0xFF));
}

#[test]
fn other_end_tag_is_invalid_in_usual_encoding() {
    let mut d = Vec::new();
    d.push(0x0B);
    cstr(&mut d, "k");
    assert_eq!(read_kv(&d, 0, false, &None).unwrap_err(), VdfrError::InvalidType(0x0B));
    // In the alternate encoding it ends the tree, and 0x08 is unknown.
    let (kv, end) = read_kv(&[0x0B], 0, true, &None).unwrap();
    assert_eq!((kv.len(), end), (0, 1));
    let mut e = vec![0x08];
    cstr(&mut e, "k");
    assert_eq!(read_kv(&e, 0, true, &None).unwrap_err(), VdfrError::InvalidType(0x08));
}

#[test]
fn scalar_values_decode() {
    let mut d = Vec::new();
    d.push(0x01);
    cstr(&mut d, "name");
    cstr(&mut d, "Half");
    d.push(0x02);
    cstr(&mut d, "neg");
    d.extend_from_slice(&(-7i32).to_le_bytes());
    d.push(0x04);
    cstr(&mut d, "ptr");
    d.extend_from_slice(&0x1234i32.to_le_bytes());
    d.push(0x06);
    cstr(&mut d, "col");
    d.extend_from_slice(&(-1i32).to_le_bytes());
    d.push(0x07);
    cstr(&mut d, "big");
    d.extend_from_slice(&u64::MAX.to_le_bytes());
    d.push(0x0A);
    cstr(&mut d, "small");
    d.extend_from_slice(&i64::MIN.to_le_bytes());
    d.push(0x03);
    cstr(&mut d, "f");
    d.extend_from_slice(&1.5f32.to_le_bytes());
    d.push(0x05);
    cstr(&mut d, "w");
    for u in "hé".encode_utf16() {
        d.extend_from_slice(&u.to_le_bytes());
    }
    d.extend_from_slice(&[0, 0]);
    d.push(0x08);
    let (kv, end) = read_kv(&d, 0, false, &None).unwrap();
    assert_eq!(end, d.len());
    assert_eq!(kv.len(), 8);
    match kv.get("name") {
        Some(Value::StringType(s)) => assert_eq!(s, "Half"),
        _ => panic!("name"),
    }
    assert!(matches!(kv.get("neg"), Some(Value::Int32Type(-7))));
    assert!(matches!(kv.get("ptr"), Some(Value::PointerType(0x1234))));
    assert!(matches!(kv.get("col"), Some(Value::ColorType(-1))));
    assert!(matches!(kv.get("big"), Some(Value::UInt64Type(u64::MAX))));
    assert!(matches!(kv.get("small"), Some(Value::Int64Type(i64::MIN))));
    match kv.get("f") {
        Some(Value::Float32Type(bits)) => assert_eq!(f32::from_bits(*bits), 1.5),
        _ => panic!("f"),
    }
    match kv.get("w") {
        Some(Value::WideStringType(s)) => assert_eq!(s, "hé"),
        _ => panic!("w"),
    }
    assert!(kv.get("missing").is_none());
}

#[test]
fn duplicate_key_last_write_wins() {
    let mut d = Vec::new();
    d.push(0x02);
    cstr(&mut d, "x");
    d.extend_from_slice(&1i32.to_le_bytes());
    d.push(0x02);
    cstr(&mut d, "y");
    d.extend_from_slice(&2i32.to_le_bytes());
    d.push(0x01);
    cstr(&mut d, "x");
    cstr(&mut d, "three");
    d.push(0x08);
    let (kv, _) = read_kv(&d, 0, false, &None).unwrap();
    assert_eq!(kv.len(), 2);
    match kv.get("x") {
        Some(Value::StringType(s)) => assert_eq!(s, "three"),
        _ => panic!("x"),
    }
    assert!(matches!(kv.get("y"), Some(Value::Int32Type(2))));
}

#[test]
fn truncated_tree_is_read_error() {
    let mut d = Vec::new();
    d.push(0x02);
    cstr(&mut d, "x");
    d.extend_from_slice(&[1, 0]);
    assert_eq!(read_kv(&d, 0, false, &None).unwrap_err(), VdfrError::ReadError);
    assert_eq!(read_kv(&[], 0, false, &None).unwrap_err(), VdfrError::ReadError);
    // no end tag
    let mut e = Vec::new();
    e.push(0x01);
    cstr(&mut e, "k");
    cstr(&mut e, "v");
    assert_eq!(read_kv(&e, 0, false, &None).unwrap_err(), VdfrError::ReadError);
}

#[test]
fn keys_from_string_table() {
    let table = Some(vec!["first".to_string(), "second".to_string()]);
    let mut d = Vec::new();
    d.push(0x02);
    u32le(&mut d, 1);
    d.extend_from_slice(&5i32.to_le_bytes());
    d.push(0x08);
    let (kv, _) = read_kv(&d, 0, false, &table).unwrap();
    assert!(matches!(kv.get("second"), Some(Value::Int32Type(5))));
    assert!(kv.get("first").is_none());
    let mut e = Vec::new();
    e.push(0x02);
    u32le(&mut e, 2);
    e.extend_from_slice(&5i32.to_le_bytes());
    e.push(0x08);
    assert_eq!(
        read_kv(&e, 0, false, &table).unwrap_err(),
        VdfrError::StringIndexOutOfRange(2)
    );
}

#[test]
fn narrow_string_ascii_and_first_zero() {
    let d = b"Hello, world! ~\0after\0".to_vec();
    let (s, end) = read_string(&d, 0, false).unwrap();
    assert_eq!(s, "Hello, world! ~");
    assert_eq!(end, 16);
    let (t, end2) = read_string(&d, end, false).unwrap();
    assert_eq!((t.as_str(), end2), ("after", d.len()));
    let (e, end3) = read_string(b"\0xyz", 0, false).unwrap();
    assert_eq!((e.as_str(), end3), ("", 1));
}

#[test]
fn narrow_string_without_terminator_fails() {
    assert_eq!(read_string(b"abc", 0, false).unwrap_err(), VdfrError::ReadError);
    assert_eq!(read_string(b"", 0, false).unwrap_err(), VdfrError::ReadError);
}

#[test]
fn narrow_string_replaces_invalid_bytes() {
    let (s, end) = read_string(&[b'a', 0xFF, b'b', 0], 0, false).unwrap();
    assert_eq!(s, "a\u{FFFD}b");
    assert_eq!(end, 4);
}

#[test]
fn wide_string_decodes_little_endian_units() {
    let d = [b'h', 0, b'i', 0, 0, 0, 9];
    let (s, end) = read_string(&d, 0, true).unwrap();
    assert_eq!((s.as_str(), end), ("hi", 6));
    // an unpaired surrogate is replaced
    let (r, _) = read_string(&[0x00, 0xD8, 0, 0], 0, true).unwrap();
    assert_eq!(r, "\u{FFFD}");
    assert_eq!(read_string(&[b'h', 0, 0], 0, true).unwrap_err(), VdfrError::ReadError);
}

#[test]
fn string_table_reads_and_restores_position() {
    let mut d = Vec::new();
    d.extend_from_slice(&12u64.to_le_bytes()); // offset of the table
    d.extend_from_slice(&[0xEE; 4]); // what follows the offset
    u32le(&mut d, 3);
    cstr(&mut d, "appid");
    cstr(&mut d, "common");
    d.push(0); // an empty fragment is dropped
    cstr(&mut d, "name");
    let (t, next) = read_string_table(&d, 0).unwrap();
    assert_eq!(t, vec!["appid".to_string(), "common".to_string(), "name".to_string()]);
    assert_eq!(next, 8);
}

#[test]
fn string_table_count_mismatch() {
    let mut d = Vec::new();
    d.extend_from_slice(&8u64.to_le_bytes());
    u32le(&mut d, 5);
    for s in ["a", "b", "c", "d"] {
        cstr(&mut d, s);
    }
    assert_eq!(
        read_string_table(&d, 0).unwrap_err(),
        VdfrError::StringTableMismatch { declared: 5, found: 4 }
    );
}

#[test]
fn string_table_offset_past_end() {
    let mut d = Vec::new();
    d.extend_from_slice(&1000u64.to_le_bytes());
    assert_eq!(read_string_table(&d, 0).unwrap_err(), VdfrError::ReadError);
    let mut e = Vec::new();
    e.extend_from_slice(&(-1i64).to_le_bytes());
    assert_eq!(read_string_table(&e, 0).unwrap_err(), VdfrError::ReadError);
}

fn newer_app_file(declared: u32, strings: &[&str]) -> Vec<u8> {
    let mut d = Vec::new();
    u32le(&mut d, VERSION_29);
    u32le(&mut d, 1);
    let offset_at = d.len();
    d.extend_from_slice(&0u64.to_le_bytes());
    app_header(&mut d, 7);
    d.push(0x08); // empty tree
    u32le(&mut d, 0);
    let table_at = d.len() as u64;
    d[offset_at..offset_at + 8].copy_from_slice(&table_at.to_le_bytes());
    u32le(&mut d, declared);
    for s in strings {
        cstr(&mut d, s);
    }
    d
}

#[test]
fn newer_app_file_with_one_empty_record() {
    let d = newer_app_file(0, &[]);
    let info = AppInfo::read(&d).unwrap();
    assert_eq!(info.magic, VERSION_29);
    assert_eq!(info.universe, 1);
    assert_eq!(info.apps.len(), 1);
    let app = &info.apps[&7];
    assert_eq!(app.key_values.len(), 0);
    assert_eq!(app.size, 100);
    assert_eq!(app.state, 2);
    assert_eq!(app.last_update, 1_700_000_000);
    assert_eq!(app.access_token, 0x0102_0304_0506_0708);
    assert_eq!(app.checksum_txt, [0xAA; 20]);
    assert_eq!(app.change_number, 55);
    assert_eq!(app.checksum_bin, [0xBB; 20]);
}

#[test]
fn newer_app_file_table_count_mismatch() {
    let d = newer_app_file(5, &["a", "b", "c", "d"]);
    assert_eq!(
        AppInfo::read(&d).unwrap_err(),
        VdfrError::StringTableMismatch { declared: 5, found: 4 }
    );
}

#[test]
fn newer_app_file_keys_by_index() {
    let mut d = Vec::new();
    u32le(&mut d, VERSION_29);
    u32le(&mut d, 1);
    let offset_at = d.len();
    d.extend_from_slice(&0u64.to_le_bytes());
    app_header(&mut d, 440);
    d.push(0x00);
    u32le(&mut d, 0); // "common"
    d.push(0x01);
    u32le(&mut d, 1); // "name"
    cstr(&mut d, "Team Fortress 2");
    d.push(0x08);
    d.push(0x08);
    u32le(&mut d, 0);
    let table_at = d.len() as u64;
    d[offset_at..offset_at + 8].copy_from_slice(&table_at.to_le_bytes());
    u32le(&mut d, 2);
    cstr(&mut d, "common");
    cstr(&mut d, "name");
    let info = AppInfo::read(&d).unwrap();
    let app = &info.apps[&440];
    match app.get(&["common", "name"]) {
        Some(Value::StringType(s)) => assert_eq!(s, "Team Fortress 2"),
        _ => panic!("common/name"),
    }
    assert!(app.get(&["common", "type"]).is_none());
}

#[test]
fn older_app_file_inline_keys_and_overwrite() {
    let mut d = Vec::new();
    u32le(&mut d, VERSION_28);
    u32le(&mut d, 1);
    app_header(&mut d, 10);
    d.push(0x02);
    cstr(&mut d, "v");
    d.extend_from_slice(&1i32.to_le_bytes());
    d.push(0x08);
    app_header(&mut d, 10);
    d.push(0x02);
    cstr(&mut d, "v");
    d.extend_from_slice(&2i32.to_le_bytes());
    d.push(0x08);
    app_header(&mut d, 20);
    d.push(0x08);
    u32le(&mut d, 0);
    let info = AppInfo::read(&d).unwrap();
    assert_eq!(info.magic, VERSION_28);
    assert_eq!(info.apps.len(), 2);
    assert!(matches!(info.apps[&10].get(&["v"]), Some(Value::Int32Type(2))));
    assert_eq!(info.apps[&20].key_values.len(), 0);
}

#[test]
fn unknown_magic_is_unsupported_version() {
    let d = 0x1111_1111u32.to_le_bytes().to_vec();
    assert_eq!(AppInfo::read(&d).unwrap_err(), VdfrError::UnsupportedVersion(0x1111_1111));
    let mut e = d.clone();
    e.extend_from_slice(&[0xFF; 40]);
    assert_eq!(AppInfo::read(&e).unwrap_err(), VdfrError::UnsupportedVersion(0x1111_1111));
}

#[test]
fn app_file_errors() {
    assert_eq!(AppInfo::read(&[0x28, 0x44]).unwrap_err(), VdfrError::ReadError);
    let mut d = Vec::new();
    u32le(&mut d, VERSION_28);
    u32le(&mut d, 1);
    assert_eq!(AppInfo::read(&d).unwrap_err(), VdfrError::ReadError);
    u32le(&mut d, 3);
    d.extend_from_slice(&[0; 10]);
    assert_eq!(AppInfo::read(&d).unwrap_err(), VdfrError::ReadError);
}

#[test]
fn package_file_records() {
    let mut d = Vec::new();
    u32le(&mut d, 0x06565528);
    u32le(&mut d, 1);
    package_header(&mut d, 0);
    d.push(0x07);
    cstr(&mut d, "packageid");
    d.extend_from_slice(&0u64.to_le_bytes());
    d.push(0x08);
    package_header(&mut d, 3);
    d.push(0x08);
    u32le(&mut d, 0xFFFF_FFFF);
    let info = PackageInfo::read(&d).unwrap();
    assert_eq!(info.magic, 0x06565528);
    assert_eq!(info.universe, 1);
    assert_eq!(info.packages.len(), 2);
    let p = &info.packages[&0];
    assert_eq!(p.checksum, [0xCC; 20]);
    assert_eq!(p.change_number, 9);
    assert_eq!(p.pics, 42);
    assert!(matches!(p.get(&["packageid"]), Some(Value::UInt64Type(0))));
    assert_eq!(info.packages[&3].key_values.len(), 0);
}

#[test]
fn package_file_without_end_id_fails() {
    let mut d = Vec::new();
    u32le(&mut d, 0x06565528);
    u32le(&mut d, 1);
    package_header(&mut d, 1);
    d.push(0x08);
    assert_eq!(PackageInfo::read(&d).unwrap_err(), VdfrError::ReadError);
}

#[test]
fn nested_trees_in_alternate_encoding() {
    // {"outer": {"inner": {"n": 1}, "s": "x"}, "after": 2}, ended by 0x0B
    let mut d = Vec::new();
    d.push(0x00);
    cstr(&mut d, "outer");
    d.push(0x00);
    cstr(&mut d, "inner");
    d.push(0x07);
    cstr(&mut d, "n");
    d.extend_from_slice(&1u64.to_le_bytes());
    d.push(0x0B);
    d.push(0x01);
    cstr(&mut d, "s");
    cstr(&mut d, "x");
    d.push(0x0B);
    d.push(0x02);
    cstr(&mut d, "after");
    d.extend_from_slice(&2i32.to_le_bytes());
    d.push(0x0B);
    d.extend_from_slice(&[0xFF, 0xFF]); // bytes after the tree are not read
    let (kv, end) = read_kv(&d, 0, true, &None).unwrap();
    assert_eq!(end, d.len() - 2);
    assert_eq!(kv.len(), 2);
    assert!(matches!(find_keys(&kv, &["outer", "inner", "n"]), Some(Value::UInt64Type(1))));
    match find_keys(&kv, &["outer", "s"]) {
        Some(Value::StringType(s)) => assert_eq!(s, "x"),
        _ => panic!("outer/s"),
    }
    assert!(matches!(find_keys(&kv, &["after"]), Some(Value::Int32Type(2))));
    assert!(find_keys(&kv, &["after", "n"]).is_none());
}

fn nested(levels: usize) -> Vec<u8> {
    let mut d = Vec::new();
    for _ in 0..levels {
        d.push(0x00);
        cstr(&mut d, "k");
    }
    for _ in 0..=levels {
        d.push(0x08);
    }
    d
}

#[test]
fn nesting_up_to_the_limit_decodes() {
    let d = nested(MAX_DEPTH);
    let (kv, end) = read_kv(&d, 0, false, &None).unwrap();
    assert_eq!(end, d.len());
    assert_eq!(kv.len(), 1);
}

#[test]
fn nesting_past_the_limit_is_too_deep() {
    let d = nested(MAX_DEPTH + 1);
    assert_eq!(read_kv(&d, 0, false, &None).unwrap_err(), VdfrError::TooDeep);
}
