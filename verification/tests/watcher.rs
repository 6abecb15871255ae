use dirwatch::dirwatch::{
    decode_record, watch_step, NotifyRecord, PascalString, WatchTree, IN_CREATE, IN_MODIFY,
};
use dirwatch::error::Error;

fn record_bytes(wd: u32, mask: u32, cookie: u32, name: &[u8], padded_len: u32) -> Vec<u8> {
    let mut out = Vec::new();
    out.extend_from_slice(&wd.to_le_bytes());
    out.extend_from_slice(&mask.to_le_bytes());
    out.extend_from_slice(&cookie.to_le_bytes());
    out.extend_from_slice(&padded_len.to_le_bytes());
    out.extend_from_slice(name);
    for _ in name.len()..padded_len as usize {
        out.push(0);
    }
    out
}

#[test]
fn decode_record_reads_header_and_name() {
    let buf = record_bytes(3, IN_MODIFY, 9, b"sub", 8);
    let (rec, next) = decode_record(&buf, buf.len(), 0).unwrap();
    assert_eq!(rec.wd, 3);
    assert_eq!(rec.mask, IN_MODIFY);
    assert_eq!(rec.cookie, 9);
    assert_eq!(rec.name, b"sub".to_vec());
    assert_eq!(next, 16 + 8);
}

#[test]
fn decode_record_without_name_field() {
    let buf = record_bytes(1, IN_MODIFY, 0, b"", 0);
    let (rec, next) = decode_record(&buf, buf.len(), 0).unwrap();
    assert_eq!(rec.name, Vec::<u8>::new());
    assert_eq!(next, 16);
}

#[test]
fn decode_record_rejects_short_header() {
    let buf = vec![0u8; 10];
    assert!(matches!(decode_record(&buf, buf.len(), 0), Err(Error::TruncatedRecord)));
}

#[test]
fn decode_record_rejects_overrunning_length() {
    // The header declares 100 name bytes but only 4 follow.
    let mut buf = record_bytes(1, IN_MODIFY, 0, b"", 0);
    buf[12] = 100;
    buf.extend_from_slice(b"abcd");
    assert!(matches!(decode_record(&buf, buf.len(), 0), Err(Error::TruncatedRecord)));
}

#[test]
fn decode_record_advances_through_two_records() {
    let mut buf = record_bytes(1, IN_MODIFY, 0, b"a", 4);
    buf.extend_from_slice(&record_bytes(2, IN_CREATE, 0, b"bc", 4));
    let (first, next) = decode_record(&buf, buf.len(), 0).unwrap();
    assert_eq!(first.wd, 1);
    assert_eq!(first.name, b"a".to_vec());
    let (second, end) = decode_record(&buf, buf.len(), next).unwrap();
    assert_eq!(second.wd, 2);
    assert_eq!(second.name, b"bc".to_vec());
    assert_eq!(end, buf.len());
}

#[test]
fn pascal_string_builds_and_extends() {
    let mut p = PascalString::new(b"abc");
    assert_eq!(p.as_bytes(), b"abc");
    assert_eq!(p.len(), 3);
    assert!(p.extend(b"/d").is_ok());
    assert_eq!(p.as_bytes(), b"abc/d");
}

#[test]
fn pascal_string_overflow_is_an_error_and_keeps_value() {
    let mut p = PascalString::new(b"abc");
    let long = [7u8; 126];
    assert!(matches!(p.extend(&long), Err(Error::PathOverflow)));
    assert_eq!(p.as_bytes(), b"abc");
}

fn rec(wd: u32, mask: u32, name: &[u8]) -> NotifyRecord {
    NotifyRecord { wd, mask, cookie: 0, name: name.to_vec() }
}

#[test]
fn watch_step_publishes_change_under_tracked_directory() {
    let mut tree = WatchTree::new();
    tree.insert(1, PascalString::new(b"/root"));
    let actions = watch_step(&tree, &rec(1, IN_MODIFY, b"f.txt"), IN_MODIFY).unwrap();
    assert!(actions.register.is_none());
    assert_eq!(actions.publish.unwrap().as_bytes(), b"/root/f.txt");
}

#[test]
fn watch_step_registers_created_entry() {
    let mut tree = WatchTree::new();
    tree.insert(1, PascalString::new(b"/root"));
    let actions = watch_step(&tree, &rec(1, IN_CREATE, b"sub"), IN_MODIFY).unwrap();
    assert_eq!(actions.register.unwrap().as_bytes(), b"/root/sub");
    assert!(actions.publish.is_none());
}

#[test]
fn watch_step_ignores_unrelated_masks() {
    let mut tree = WatchTree::new();
    tree.insert(1, PascalString::new(b"/root"));
    let actions = watch_step(&tree, &rec(1, 0x8000, b"x"), IN_MODIFY).unwrap();
    assert!(actions.register.is_none());
    assert!(actions.publish.is_none());
}

#[test]
fn watch_step_unmapped_descriptor_is_an_invariant_violation() {
    let tree = WatchTree::new();
    assert!(matches!(
        watch_step(&tree, &rec(5, IN_MODIFY, b"x"), IN_MODIFY),
        Err(Error::UnmappedWatch)
    ));
}

#[test]
fn watch_step_overflowing_path_is_an_error() {
    let mut tree = WatchTree::new();
    tree.insert(1, PascalString::new(&[b'd'; 120]));
    assert!(matches!(
        watch_step(&tree, &rec(1, IN_MODIFY, b"longname.txt"), IN_MODIFY),
        Err(Error::PathOverflow)
    ));
}

#[test]
fn change_inside_new_directory_yields_one_path_under_it() {
    // A subdirectory is created and its watch registered; a change inside it
    // then publishes exactly one path, lying under the new directory.
    let mut tree = WatchTree::new();
    tree.insert(1, PascalString::new(b"/root"));
    let created = watch_step(&tree, &rec(1, IN_CREATE, b"sub"), IN_MODIFY)
        .unwrap()
        .register
        .unwrap();
    assert_eq!(created.as_bytes(), b"/root/sub");
    tree.insert(2, created);
    let actions = watch_step(&tree, &rec(2, IN_MODIFY, b"file"), IN_MODIFY).unwrap();
    let published = actions.publish.unwrap();
    assert!(actions.register.is_none());
    assert_eq!(published.as_bytes(), b"/root/sub/file");
    assert!(published.as_bytes().starts_with(b"/root/sub"));
}
