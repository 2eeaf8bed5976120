use deadbolt::text::{bytes_eq, contains_byte, find_bytes, remove_byte, remove_whitespace, split_bytes};

#[test]
fn split_keeps_empty_pieces() {
    assert_eq!(split_bytes(b"a b", b' '), vec![b"a".to_vec(), b"b".to_vec()]);
    assert_eq!(split_bytes(b" a  b ", b' '), vec![
        b"".to_vec(),
        b"a".to_vec(),
        b"".to_vec(),
        b"b".to_vec(),
        b"".to_vec(),
    ]);
    assert_eq!(split_bytes(b"", b';'), vec![b"".to_vec()]);
}

#[test]
fn whitespace_is_removed() {
    assert_eq!(remove_whitespace(b" add\tr1,\r\n r2 "), b"addr1,r2".to_vec());
    // U+00A0 (no-break space) and U+3000 (ideographic space) are white space too
    let s = "a\u{a0}b\u{3000}c".as_bytes().to_vec();
    assert_eq!(remove_whitespace(&s), b"abc".to_vec());
    // U+00E9 is not
    let s = "\u{e9} x".as_bytes().to_vec();
    assert_eq!(remove_whitespace(&s), "\u{e9}x".as_bytes().to_vec());
}

#[test]
fn bytes_are_removed() {
    assert_eq!(remove_byte(b"r1,,", b','), b"r1".to_vec());
    assert_eq!(remove_byte(b"", b','), Vec::<u8>::new());
}

#[test]
fn searching() {
    assert!(contains_byte(b"jmpl .end", b'.'));
    assert!(!contains_byte(b"hlt", b'.'));
    assert_eq!(find_bytes(b"section.text", b"section"), Some(0));
    assert_eq!(find_bytes(b"xsectionsection", b"section"), Some(1));
    assert_eq!(find_bytes(b"sect", b"section"), None);
    assert_eq!(find_bytes(b"abc", b""), Some(0));
    assert!(bytes_eq(b"abc", b"abc"));
    assert!(!bytes_eq(b"abc", b"abd"));
    assert!(!bytes_eq(b"abc", b"ab"));
}
