use easy_release::ident::{bytes_precede, PackageId};

#[test]
fn identities_are_equal_by_text() {
    let a = PackageId::new("a 0.1.0 (x)");
    assert!(a.same(&PackageId::new("a 0.1.0 (x)")));
    assert!(!a.same(&PackageId::new("a 0.2.0 (x)")));
    assert!(a.same(&a.duplicate()));
    assert_eq!(a.as_str(), "a 0.1.0 (x)");
}

#[test]
fn bytes_are_ordered_like_words_in_a_dictionary() {
    assert!(bytes_precede(b"", b"a"));
    assert!(!bytes_precede(b"", b""));
    assert!(!bytes_precede(b"a", b""));
    assert!(bytes_precede(b"a", b"ab"));
    assert!(!bytes_precede(b"ab", b"a"));
    assert!(bytes_precede(b"ab", b"b"));
    assert!(!bytes_precede(b"abc", b"abc"));
    assert!(bytes_precede(b"abc", b"abd"));
    assert!(bytes_precede(b"Z", b"a"));
    assert!(bytes_precede(&[1, 255], &[2, 0]));
}

#[test]
fn identities_are_ordered_as_their_texts_are() {
    let words = ["", "a", "a 0.10.0", "a 0.2.0", "ab", "b", "z\u{e9}", "\u{e9}", "\u{4e2d}"];
    for x in words {
        for y in words {
            assert_eq!(PackageId::new(x).precedes(&PackageId::new(y)), x < y, "{x:?} {y:?}");
        }
    }
}
