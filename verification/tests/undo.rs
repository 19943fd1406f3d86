use outline_raster::undo::UndoStack;

#[derive(Clone)]
struct Foo {
    a: i32,
}

#[test]
fn test_undo_stack() {
    let mut s = UndoStack::new(Foo { a: 3 });
    s.a += 5;
    s.commit();

    s.a += 1;
    s.a += 2;
    s.commit();
    assert_eq!(s.a, 11);

    s.undo();
    assert_eq!(s.a, 8);

    s.redo();
    assert_eq!(s.a, 11);

    s.redo();
    assert_eq!(s.a, 11);

    s.undo();
    s.undo();
    assert_eq!(s.a, 3);

    s.undo();
    assert_eq!(s.a, 3);

    s.redo();
    assert_eq!(s.a, 8);
    s.a -= 10;
    assert_eq!(s.a, -2);
    s.undo();
    assert_eq!(s.a, 3); // An undo while there's an un-commited active edit will discard it
    s.redo();
    assert_eq!(s.a, 8);
    s.a -= 10;
    s.commit();
    assert_eq!(s.a, -2);
    s.redo();
    assert_eq!(s.a, -2); // Check that stuff got truncated on commit
}
