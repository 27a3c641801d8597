use anymap::AnyMap;

#[derive(Debug, PartialEq, Clone)]
struct Foo {
    str: String,
}

#[derive(Debug, PartialEq, Clone, Copy)]
struct Unit;

#[derive(Debug, PartialEq)]
struct Meters(u32);

#[derive(Debug, PartialEq)]
struct Seconds(u32);

#[test]
fn new_map_is_empty() {
    let m = AnyMap::new();
    assert_eq!(m.len(), 0);
    assert!(m.is_empty());
    assert!(!m.contains::<i64>());
    assert_eq!(m.get::<i64>(), None);
}

#[test]
fn identity_differs_across_types() {
    let mut m = AnyMap::new();
    assert_eq!(m.insert(1i32), None);
    assert_eq!(m.insert(2i64), None);
    assert_eq!(m.insert(3u64), None);
    assert_eq!(m.insert(true), None);
    assert_eq!(m.insert(String::from("s")), None);
    assert_eq!(m.insert(Foo { str: "f".to_string() }), None);
    assert_eq!(m.insert(Unit), None);
    assert_eq!(m.insert(vec![4u8]), None);
    assert_eq!(m.insert(Some(5i32)), None);
    assert_eq!(m.insert((6i32, 7i32)), None);
    assert_eq!(m.insert(Meters(8)), None);
    assert_eq!(m.insert(Seconds(9)), None);
    assert_eq!(m.len(), 12);
    assert_eq!(m.get::<i32>(), Some(&1));
    assert_eq!(m.get::<i64>(), Some(&2));
    assert_eq!(m.get::<u64>(), Some(&3));
    assert_eq!(m.get::<bool>(), Some(&true));
    assert_eq!(m.get::<String>(), Some(&String::from("s")));
    assert_eq!(m.get::<Foo>(), Some(&Foo { str: "f".to_string() }));
    assert_eq!(m.get::<Unit>(), Some(&Unit));
    assert_eq!(m.get::<Vec<u8>>(), Some(&vec![4u8]));
    assert_eq!(m.get::<Option<i32>>(), Some(&Some(5)));
    assert_eq!(m.get::<(i32, i32)>(), Some(&(6, 7)));
    assert_eq!(m.get::<Meters>(), Some(&Meters(8)));
    assert_eq!(m.get::<Seconds>(), Some(&Seconds(9)));
}

#[test]
fn round_trip_of_several_types() {
    let mut m = AnyMap::new();
    assert_eq!(m.insert(42i32), None);
    assert_eq!(m.insert(String::from("hello")), None);
    assert_eq!(m.insert(Foo { str: "foo".to_string() }), None);
    assert_eq!(m.insert(vec![1u8, 2, 3]), None);
    assert_eq!(m.get::<i32>(), Some(&42));
    assert_eq!(m.get::<String>(), Some(&String::from("hello")));
    assert_eq!(m.get::<Foo>(), Some(&Foo { str: "foo".to_string() }));
    assert_eq!(m.get::<Vec<u8>>(), Some(&vec![1u8, 2, 3]));
}

#[test]
fn replacement_returns_prior_value() {
    let mut m = AnyMap::new();
    assert_eq!(m.insert(Foo { str: "one".to_string() }), None);
    assert_eq!(
        m.insert(Foo { str: "two".to_string() }),
        Some(Foo { str: "one".to_string() })
    );
    assert_eq!(m.get::<Foo>(), Some(&Foo { str: "two".to_string() }));
    assert_eq!(m.len(), 1);
}

#[test]
fn removal_clears_presence() {
    let mut m = AnyMap::new();
    m.insert(7u8);
    assert!(m.contains::<u8>());
    assert_eq!(m.remove::<u8>(), Some(7u8));
    assert!(!m.contains::<u8>());
    assert_eq!(m.get::<u8>(), None);
    assert_eq!(m.remove::<u8>(), None);
    assert!(m.is_empty());
}

#[test]
fn types_are_independent() {
    let mut m = AnyMap::new();
    m.insert(1i32);
    m.insert(2i64);
    m.insert(3u32);
    assert_eq!(m.get::<i32>(), Some(&1));
    assert_eq!(m.get::<i64>(), Some(&2));
    assert_eq!(m.get::<u32>(), Some(&3));
    assert_eq!(m.insert(10i64), Some(2i64));
    assert_eq!(m.get::<i32>(), Some(&1));
    assert_eq!(m.get::<u32>(), Some(&3));
    assert_eq!(m.remove::<i32>(), Some(1));
    assert_eq!(m.get::<i64>(), Some(&10));
    assert_eq!(m.get::<u32>(), Some(&3));
    assert!(!m.contains::<u64>());
}

#[test]
fn len_counts_distinct_types() {
    let mut m = AnyMap::new();
    assert_eq!(m.len(), 0);
    assert!(m.is_empty());
    m.insert(1u8);
    assert_eq!(m.len(), 1);
    m.insert(2u8);
    assert_eq!(m.len(), 1);
    m.insert(Unit);
    assert_eq!(m.len(), 2);
    assert!(!m.is_empty());
    m.insert(());
    assert_eq!(m.len(), 3);
    m.remove::<Unit>();
    assert_eq!(m.len(), 2);
    m.remove::<Unit>();
    assert_eq!(m.len(), 2);
}

#[test]
fn clear_empties_fully() {
    let mut m = AnyMap::new();
    m.insert(1u16);
    m.insert(String::from("x"));
    m.insert(Unit);
    m.clear();
    assert_eq!(m.len(), 0);
    assert!(m.is_empty());
    assert!(!m.contains::<u16>());
    assert!(!m.contains::<String>());
    assert!(!m.contains::<Unit>());
    assert_eq!(m.get::<u16>(), None);
    assert_eq!(m.insert(5u16), None);
}

#[test]
fn integer_then_foo_scenario() {
    let mut s = AnyMap::new();
    assert_eq!(s.insert(42i32), None);
    assert_eq!(s.get::<i32>(), Some(&42));
    assert_eq!(s.insert(100i32), Some(42));
    assert_eq!(s.get::<i32>(), Some(&100));
    assert_eq!(s.insert(Foo { str: "foo".to_string() }), None);
    assert_eq!(s.len(), 2);
    assert_eq!(s.remove::<i32>(), Some(100));
    assert_eq!(s.len(), 1);
    assert_eq!(s.get::<i32>(), None);
}

#[test]
fn get_mut_changes_stored_value() {
    let mut data = AnyMap::new();
    assert_eq!(data.get_mut::<Foo>(), None);
    data.insert(Foo { str: "foo".to_string() });
    if let Some(foo) = data.get_mut::<Foo>() {
        foo.str.push('t');
    }
    assert_eq!(data.get::<Foo>().unwrap().str.as_str(), "foot");
    assert_eq!(data.len(), 1);
}

#[test]
fn insertion_of_one_type_repeatedly() {
    let mut data = AnyMap::new();
    for _ in 0..100 {
        let _ = data.insert(42i64);
    }
    assert_eq!(data.len(), 1);
    assert_eq!(data.get::<i64>(), Some(&42));
}

#[test]
fn get_missing_repeatedly() {
    let data = AnyMap::new();
    for _ in 0..100 {
        assert_eq!(data.get::<i64>(), None);
    }
}

#[test]
fn get_present_repeatedly() {
    let mut data = AnyMap::new();
    let _ = data.insert(42i64);
    for _ in 0..100 {
        assert_eq!(data.get::<i64>(), Some(&42));
    }
}

#[test]
fn distinct_wrapper_types_share_nothing() {
    let mut m = AnyMap::new();
    m.insert(Meters(5));
    m.insert(Seconds(9));
    m.insert(5u32);
    assert_eq!(m.len(), 3);
    assert_eq!(m.get::<Meters>(), Some(&Meters(5)));
    assert_eq!(m.get::<Seconds>(), Some(&Seconds(9)));
    assert_eq!(m.remove::<Meters>(), Some(Meters(5)));
    assert_eq!(m.get::<Seconds>(), Some(&Seconds(9)));
    assert_eq!(m.get::<u32>(), Some(&5));
}
