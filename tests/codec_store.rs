use detach_cli::codec::{decode, encode, record};
use detach_cli::store::{
    add_if_absent, append_record, contains_name, import_list, remove_range, scan, ImportError,
    ScanError,
};

fn names_of(buf: &[u8]) -> Vec<Vec<u8>> {
    scan(buf).unwrap().into_iter().map(|r| r.name).collect()
}

#[test]
fn encode_interleaves_zero_bytes() {
    assert_eq!(encode(b"abc"), vec![b'a', 0, b'b', 0, b'c']);
    assert_eq!(encode(b"x"), vec![b'x']);
}

#[test]
fn record_prefixes_payload_length() {
    assert_eq!(record(b"ab"), vec![3, b'a', 0, b'b']);
    assert_eq!(record(b"z"), vec![1, b'z']);
}

#[test]
fn decode_inverts_encode() {
    for name in [&b"a"[..], b"pkg.x", b"com.android.vending"] {
        let e = encode(name);
        assert_eq!(e.len(), 2 * name.len() - 1);
        assert_eq!(decode(&e), name.to_vec());
    }
    let longest = vec![b'q'; 128];
    let e = encode(&longest);
    assert_eq!(e.len(), 255);
    assert_eq!(decode(&e), longest);
    assert_eq!(record(&longest)[0], 255);
}

#[test]
fn scan_two_records_partitions_buffer() {
    let mut buf = record(b"ab");
    buf.extend(record(b"xyz"));
    let recs = scan(&buf).unwrap();
    assert_eq!(recs.len(), 2);
    assert_eq!(recs[0].name, b"ab".to_vec());
    assert_eq!((recs[0].start, recs[0].end), (0, 4));
    assert_eq!(recs[1].name, b"xyz".to_vec());
    assert_eq!((recs[1].start, recs[1].end), (4, 10));
    assert_eq!(buf.len(), 10);
}

#[test]
fn scan_empty_buffer_is_empty_list() {
    assert!(scan(&[]).unwrap().is_empty());
}

#[test]
fn scan_reports_truncated_record() {
    let mut buf = record(b"ab");
    buf.extend([5, b'x', 0]);
    assert_eq!(scan(&buf).err(), Some(ScanError::Truncated(4)));
    assert_eq!(scan(&[3]).err(), Some(ScanError::Truncated(0)));
}

#[test]
fn removing_middle_record_keeps_order() {
    let mut buf = Vec::new();
    for n in [&b"a"[..], b"bb", b"c"] {
        append_record(&mut buf, n);
    }
    let recs = scan(&buf).unwrap();
    let bb = &recs[1];
    assert_eq!(bb.name, b"bb".to_vec());
    remove_range(&mut buf, bb.start, bb.end);
    assert_eq!(names_of(&buf), vec![b"a".to_vec(), b"c".to_vec()]);
}

#[test]
fn remove_range_shifts_tail() {
    let mut v = vec![1, 2, 3, 4, 5];
    remove_range(&mut v, 1, 3);
    assert_eq!(v, vec![1, 4, 5]);
    remove_range(&mut v, 0, 0);
    assert_eq!(v, vec![1, 4, 5]);
}

#[test]
fn add_twice_keeps_one_record() {
    let mut buf = Vec::new();
    assert_eq!(add_if_absent(&mut buf, b"pkg.x"), Ok(true));
    assert_eq!(names_of(&buf).len(), 1);
    let once = buf.clone();
    assert_eq!(add_if_absent(&mut buf, b"pkg.x"), Ok(false));
    assert_eq!(buf, once);
    assert_eq!(names_of(&buf), vec![b"pkg.x".to_vec()]);
}

#[test]
fn add_to_corrupt_list_fails_unchanged() {
    let mut buf = vec![9, b'a'];
    assert_eq!(add_if_absent(&mut buf, b"b"), Err(ScanError::Truncated(0)));
    assert_eq!(buf, vec![9, b'a']);
}

#[test]
fn contains_name_matches_whole_names() {
    let mut buf = record(b"abc");
    buf.extend(record(b"de"));
    let recs = scan(&buf).unwrap();
    assert!(contains_name(&recs, b"de"));
    assert!(!contains_name(&recs, b"ab"));
    assert!(!contains_name(&recs, b"abcd"));
}

#[test]
fn import_skips_blank_and_comment_lines() {
    let text = b"  com.a  \n\n# note\r\norg.b\r\n   \n";
    let bin = import_list(text).unwrap();
    let mut expected = record(b"com.a");
    expected.extend(record(b"org.b"));
    assert_eq!(bin, expected);
    assert!(import_list(b"").unwrap().is_empty());
}

#[test]
fn import_rejects_long_name() {
    let mut text = b"ok\n# c\n".to_vec();
    text.extend(vec![b'n'; 129]);
    text.extend(b"\nlater");
    assert_eq!(import_list(&text), Err(ImportError::NameTooLong(2)));
    let mut fits = vec![b'n'; 128];
    fits.push(b'\n');
    assert_eq!(import_list(&fits).unwrap().len(), 256);
}

#[test]
fn import_trims_unicode_whitespace() {
    let text = "\u{a0}a\n\u{3000}b\u{2003}\u{85}\n\u{b}c\u{202f}\n\u{2028}\u{2029}\n\u{1680}#x\u{205f}\n";
    let bin = import_list(text.as_bytes()).unwrap();
    let mut expected = record(b"a");
    expected.extend(record(b"b"));
    expected.extend(record(b"c"));
    assert_eq!(bin, expected);
}

#[test]
fn import_keeps_inner_unicode_whitespace() {
    let text = "\u{2000}com.\u{a0}app\u{200a}\n";
    let bin = import_list(text.as_bytes()).unwrap();
    assert_eq!(bin, record("com.\u{a0}app".as_bytes()));
}
