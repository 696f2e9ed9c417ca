use fixed_set::FixedSet;

#[derive(Eq, PartialEq, Clone, Debug, Default)]
struct Foo {
    baz: String,
}

fn data(s: &str) -> Foo {
    match s {
        "patrician" => Foo {
            baz: "The Patrician".into(),
        },
        "rincewind" => Foo {
            baz: "Rincewind".into(),
        },
        "vimes" => Foo {
            baz: "Commander Vimes".into(),
        },
        "librarian" => Foo {
            baz: "The Librarian".into(),
        },
        "carrot" => Foo {
            baz: "Captain Carrot".into(),
        },
        _ => Foo { baz: "None".into() },
    }
}

#[test]
fn zero_sized_fixed_set() {
    let mut s = FixedSet::<usize>::new(0);
    assert!(s.is_full(), "Set should be full");
    assert!(!s.set_item(1, 1), "Should not be able to set item");
    assert_eq!(s.get_item(0), None, "Should not return a value");
    assert_eq!(s.sum(), Some(0));
}

#[test]
fn small_set() {
    let mut s = FixedSet::<Foo>::new(3);
    // Set is empty
    assert!(!s.is_full());
    // Add an item
    assert!(s.set_item(1, data("patrician")));
    assert!(!s.is_full());
    // Add an item
    assert!(s.set_item(0, data("vimes")));
    assert!(!s.is_full());
    // Replace an item
    assert!(s.set_item(1, data("rincewind")));
    assert!(!s.is_full());
    // Add item, filling set
    assert!(s.set_item(2, data("carrot")));
    assert!(s.is_full());
    // Try add an invalid item
    assert!(!s.set_item(3, data("librarian")));
    assert!(s.is_full());
    // Clear an item
    s.clear_item(1);
    assert!(!s.is_full());
    // Check contents
    assert_eq!(s.get_item(0).unwrap().baz, "Commander Vimes");
    assert!(s.get_item(1).is_none());
    assert_eq!(s.get_item(2).unwrap().baz, "Captain Carrot");
    // Size is 3
    assert_eq!(s.size(), 3);
    // Slow search
    assert_eq!(s.search(&data("carrot")), Some(2));
    assert_eq!(s.search(&data("vimes")), Some(0));
    assert_eq!(s.search(&data("librarian")), None);
    assert_eq!(s.search(&data("random")), None);
}

#[test]
fn sum_values() {
    let mut s = FixedSet::<usize>::new(4);
    s.set_item(0, 5);
    assert_eq!(s.sum(), None);
    s.set_item(1, 4);
    assert_eq!(s.sum(), None);
    s.set_item(2, 3);
    assert_eq!(s.sum(), None);
    s.set_item(3, 2);
    assert_eq!(s.sum(), Some(14));
    s.set_item(1, 0);
    assert_eq!(s.sum(), Some(10));
}

#[test]
fn iterator() {
    let mut s = FixedSet::<usize>::new(5);
    s.set_item(0, 3);
    s.set_item(3, 2);
    s.set_item(1, 1);
    let elems = s.iter();
    assert_eq!(elems, vec![Some(&3), Some(&1), None, Some(&2), None]);
}

#[test]
fn into_vec() {
    let mut s = FixedSet::<usize>::new(5);
    s.set_item(1, 5);
    s.set_item(3, 3);
    assert_eq!(s.into_vec(), vec![5, 3]);
}
