use detach_cli::lev::Lev;

#[test]
fn lev_counts_edits() {
    let mut l = Lev::new();
    assert_eq!(l.lev("kitten", "sitting"), 3);
    assert_eq!(l.lev("", "abc"), 3);
    assert_eq!(l.lev("abc", ""), 3);
    assert_eq!(l.lev("same", "same"), 0);
    assert_eq!(l.lev("flaw", "lawn"), 2);
    assert_eq!(l.lev("é", "e"), 2);
}
