use candy::utils::{AdjustCasingOfFirstLetter, HashMapExtension, HashSetExtension};
use std::collections::{HashMap, HashSet};

#[test]
fn adjusting_the_case_of_the_first_letter() {
    assert_eq!("Hello".lowercase_first_letter(), "hello");
    assert_eq!("hello".uppercase_first_letter(), "Hello");
    assert_eq!("ÄBC".lowercase_first_letter(), "äBC");
    // Some letters have an uppercase form of several characters.
    assert_eq!("ßa".uppercase_first_letter(), "SSa");
    assert_eq!("".lowercase_first_letter(), "");
    assert_eq!("".uppercase_first_letter(), "");
    assert_eq!("1x".uppercase_first_letter(), "1x");
}

#[test]
fn forced_map_operations() {
    let mut map: HashMap<u64, &str> = HashMap::new();
    map.force_insert(1, "one");
    map.force_insert(2, "two");
    assert_eq!(map.force_replace(1, "uno"), "one");
    assert_eq!(map.get(&1), Some(&"uno"));
    assert_eq!(map.force_remove(&2), "two");
    assert_eq!(map.len(), 1);
}

#[test]
fn forced_set_operations() {
    let mut set: HashSet<u64> = HashSet::new();
    set.force_insert(3);
    set.force_insert(4);
    set.force_remove(&3);
    assert!(!set.contains(&3));
    assert!(set.contains(&4));
}
