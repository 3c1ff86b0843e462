use detach_cli::packages::{filter_candidates, parse_package_list};
use detach_cli::utf32string::UTF32String;
use detach_cli::lines::{split_lines, trim_line};

fn text(s: &str) -> UTF32String {
    UTF32String { inner: s.chars().collect() }
}

#[test]
fn utf32_insert_remove_len() {
    let mut t = text("ac");
    t.insert(1, 'b');
    assert_eq!(t.inner, vec!['a', 'b', 'c']);
    t.insert(3, 'é');
    assert_eq!(t.len(), 4);
    t.remove(0);
    assert_eq!(t.inner, vec!['b', 'c', 'é']);
}

#[test]
fn utf32_trimmed_drops_outer_whitespace() {
    assert_eq!(text("  ab c\t\r\n").trimmed(), &['a', 'b', ' ', 'c'][..]);
    assert_eq!(text("   ").trimmed(), &[][..]);
    assert_eq!(text("x").trimmed(), &['x'][..]);
}

#[test]
fn utf32_starts_with_compares_common_length() {
    let t = text("com.app");
    assert!(t.starts_with("com"));
    assert!(!t.starts_with("org"));
    assert!(t.starts_with("com.app.longer"));
    assert!(t.starts_with(""));
}

#[test]
fn split_and_trim_lines() {
    let ls = split_lines(b"a\nbc\n");
    assert_eq!(ls, vec![b"a".to_vec(), b"bc".to_vec(), vec![]]);
    assert_eq!(trim_line(b" \tx y\r"), b"x y".to_vec());
}

#[test]
fn package_list_strips_prefix() {
    let out = b"package:com.app1\npackage:org.xxx2\n";
    assert_eq!(
        parse_package_list(out),
        Some(vec![b"com.app1".to_vec(), b"org.xxx2".to_vec()])
    );
    assert_eq!(parse_package_list(b""), Some(vec![]));
    assert_eq!(parse_package_list(b"package:a\nbogus\n"), None);
}

#[test]
fn filter_is_case_insensitive_substring() {
    let apps = vec![b"com.Example".to_vec(), b"org.other".to_vec(), b"net.examples".to_vec()];
    assert_eq!(filter_candidates(&apps, &text("EXAMPLE")), vec![0, 2]);
    assert_eq!(filter_candidates(&apps, &text("  other ")), vec![1]);
    assert_eq!(filter_candidates(&apps, &text("   ")), Vec::<usize>::new());
    assert_eq!(filter_candidates(&apps, &text("zzz")), Vec::<usize>::new());
}

#[test]
fn filter_keeps_at_most_five() {
    let apps: Vec<Vec<u8>> = (0..8).map(|i| format!("app{i}").into_bytes()).collect();
    assert_eq!(filter_candidates(&apps, &text("app")), vec![0, 1, 2, 3, 4]);
}

#[test]
fn trim_line_drops_unicode_whitespace() {
    assert_eq!(trim_line("\u{a0}\u{3000}a b\u{2009}\u{b}".as_bytes()), b"a b".to_vec());
    assert_eq!(trim_line("\u{2028}\u{85}".as_bytes()), Vec::<u8>::new());
    assert_eq!(trim_line("é".as_bytes()), "é".as_bytes().to_vec());
}

#[test]
fn filter_trims_unicode_whitespace_from_text() {
    let apps = vec![b"a".to_vec(), b"b".to_vec()];
    assert_eq!(filter_candidates(&apps, &text("\u{3000}a")), vec![0]);
    assert_eq!(filter_candidates(&apps, &text("\u{b}b\u{a0}")), vec![1]);
    assert_eq!(filter_candidates(&apps, &text("\u{2003}\u{3000}")), Vec::<usize>::new());
}

#[test]
fn filter_matches_non_ascii_text_by_utf8_bytes() {
    let apps = vec!["org.café".as_bytes().to_vec(), b"org.cafe".to_vec()];
    assert_eq!(filter_candidates(&apps, &text("FÉ")), Vec::<usize>::new());
    assert_eq!(filter_candidates(&apps, &text("Fé")), vec![0]);
    assert_eq!(filter_candidates(&apps, &text("CAF")), vec![0, 1]);
}
