use pathstore::node::Node;
use pathstore::path::PathExpr;
use pathstore::store::{PathStore, StoreError};

fn p(s: &str) -> PathExpr {
    PathExpr::parse(s).unwrap()
}

#[test]
fn insert_then_get_returns_the_value() {
    let mut store = PathStore::new();
    store.insert_at(&p("a.b"), Node::Int(7)).unwrap();
    assert_eq!(store.get_at(&p("a.b")), Ok(&Node::Int(7)));
    store.insert_at(&p("a.b"), Node::Text("x".to_owned())).unwrap();
    assert_eq!(store.get_at(&p("a.b")), Ok(&Node::Text("x".to_owned())));
}

#[test]
fn auto_vivification_builds_intermediate_containers() {
    let mut store = PathStore::new();
    store.insert_at(&p("a.b[2].c"), Node::Int(5)).unwrap();
    let expected = Node::Obj(vec![(
        "a".to_owned(),
        Node::Obj(vec![(
            "b".to_owned(),
            Node::Arr(vec![
                Node::Null,
                Node::Null,
                Node::Obj(vec![("c".to_owned(), Node::Int(5))]),
            ]),
        )]),
    )]);
    assert_eq!(store.get_at(&PathExpr::root()), Ok(&expected));
}

#[test]
fn insert_incompatible_shape_names_the_offending_prefix() {
    let mut store = PathStore::new();
    store.insert_at(&p("a.b"), Node::Int(1)).unwrap();
    let err = store.insert_at(&p("a.b.c"), Node::Int(2)).unwrap_err();
    assert_eq!(err, StoreError::TypeMismatch(p("a.b")));
    // the failed write left the store untouched
    assert_eq!(store.get_at(&p("a.b")), Ok(&Node::Int(1)));
}

#[test]
fn resize_array_grows_with_nulls_and_truncates() {
    let mut store = PathStore::new();
    store.insert_at(&p("xs[0]"), Node::Int(1)).unwrap();
    store.insert_at(&p("xs[1]"), Node::Int(2)).unwrap();
    store.resize_array_at(&p("xs"), 4).unwrap();
    assert_eq!(
        store.get_at(&p("xs")),
        Ok(&Node::Arr(vec![Node::Int(1), Node::Int(2), Node::Null, Node::Null]))
    );
    store.resize_array_at(&p("xs"), 1).unwrap();
    assert_eq!(store.get_at(&p("xs")), Ok(&Node::Arr(vec![Node::Int(1)])));
}

#[test]
fn resize_array_on_absent_slot_creates_the_array() {
    let mut store = PathStore::new();
    store.resize_array_at(&p("fresh"), 3).unwrap();
    assert_eq!(
        store.get_at(&p("fresh")),
        Ok(&Node::Arr(vec![Node::Null, Node::Null, Node::Null]))
    );
}

#[test]
fn resize_array_on_scalar_is_a_type_mismatch() {
    let mut store = PathStore::new();
    store.insert_at(&p("n"), Node::Int(3)).unwrap();
    let err = store.resize_array_at(&p("n"), 2).unwrap_err();
    assert_eq!(err, StoreError::TypeMismatch(p("n")));
    assert_eq!(store.get_at(&p("n")), Ok(&Node::Int(3)));
}

#[test]
fn remove_mapping_key_then_get_is_not_found() {
    let mut store = PathStore::new();
    store.insert_at(&p("a.b"), Node::Int(7)).unwrap();
    store.remove_at(&p("a.b")).unwrap();
    assert_eq!(store.get_at(&p("a.b")), Err(StoreError::NotFound));
}

#[test]
fn remove_array_index_shifts_later_elements_down() {
    let mut store = PathStore::new();
    store.insert_at(&p("xs[0]"), Node::Int(10)).unwrap();
    store.insert_at(&p("xs[1]"), Node::Int(20)).unwrap();
    store.insert_at(&p("xs[2]"), Node::Int(30)).unwrap();
    store.remove_at(&p("xs[1]")).unwrap();
    assert_eq!(
        store.get_at(&p("xs")),
        Ok(&Node::Arr(vec![Node::Int(10), Node::Int(30)]))
    );
    // removing the (new) last index leaves nothing at that position
    store.remove_at(&p("xs[1]")).unwrap();
    assert_eq!(store.get_at(&p("xs[1]")), Err(StoreError::NotFound));
}

#[test]
fn remove_unresolved_path_is_not_found_and_changes_nothing() {
    let mut store = PathStore::new();
    store.insert_at(&p("a"), Node::Int(1)).unwrap();
    assert_eq!(store.remove_at(&p("b")), Err(StoreError::NotFound));
    assert_eq!(store.remove_at(&p("a[0]")), Err(StoreError::NotFound));
    assert_eq!(store.get_at(&p("a")), Ok(&Node::Int(1)));
}

#[test]
fn get_on_fresh_store_root_is_the_empty_mapping() {
    let store = PathStore::new();
    assert_eq!(store.get_at(&PathExpr::root()), Ok(&Node::Obj(vec![])));
    assert_eq!(store.get_at(&p("missing")), Err(StoreError::NotFound));
}
