use pathstore::path::{PathExpr, ParseError, Seg};

#[test]
fn parse_and_format_canonical_literals() {
    for lit in ["a", "a.b", "a.b[2].c", "[0]", "x1._y[10][0]", ""] {
        let path = PathExpr::parse(lit).unwrap();
        assert_eq!(path.format(), lit);
    }
}

#[test]
fn parse_builds_the_expected_segments() {
    let path = PathExpr::parse("a.b[2].c").unwrap();
    assert_eq!(
        path.segs,
        vec![
            Seg::Key("a".to_owned()),
            Seg::Key("b".to_owned()),
            Seg::Idx(2),
            Seg::Key("c".to_owned()),
        ]
    );
}

#[test]
fn parse_rejects_malformed_literals_with_a_position() {
    assert_eq!(PathExpr::parse(".a"), Err(ParseError { pos: 0 }));
    assert_eq!(PathExpr::parse("a."), Err(ParseError { pos: 2 }));
    assert_eq!(PathExpr::parse("a..b"), Err(ParseError { pos: 2 }));
    assert_eq!(PathExpr::parse("a[]"), Err(ParseError { pos: 2 }));
    assert_eq!(PathExpr::parse("a[x]"), Err(ParseError { pos: 2 }));
    assert_eq!(PathExpr::parse("a[1"), Err(ParseError { pos: 3 }));
    assert_eq!(PathExpr::parse("1a"), Err(ParseError { pos: 0 }));
    assert_eq!(PathExpr::parse("a b"), Err(ParseError { pos: 1 }));
}

#[test]
fn child_paths_are_produced_by_appending_segments() {
    let root = PathExpr::root();
    let a = root.child_key("a".to_owned());
    let a2 = a.child_idx(2);
    let a2c = a2.child_key("c".to_owned());
    assert_eq!(a2c, PathExpr::parse("a[2].c").unwrap());
    assert_eq!(a2c.format(), "a[2].c");
    // the parents are unchanged: paths are immutable values
    assert_eq!(a.format(), "a");
    assert_eq!(root.format(), "");
}

#[test]
fn paths_compare_structurally() {
    let one = PathExpr::parse("a.b[2]").unwrap();
    let two = PathExpr::root()
        .child_key("a".to_owned())
        .child_key("b".to_owned())
        .child_idx(2);
    assert_eq!(one, two);
    assert_ne!(one, PathExpr::parse("a.b[3]").unwrap());
}

#[test]
fn prefix_keeps_the_first_segments() {
    let path = PathExpr::parse("a.b[2].c").unwrap();
    assert_eq!(path.prefix(2), PathExpr::parse("a.b").unwrap());
    assert_eq!(path.prefix(0), PathExpr::root());
    assert_eq!(path.len(), 4);
}
