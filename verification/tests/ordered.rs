use tokio_electrum::ordered::{OrderedMap, OrderedSet};

#[test]
fn maps_are_sorted_by_key() {
    let mut map: OrderedMap<String, u32> = OrderedMap::new();
    assert!(map.is_empty());
    for (i, key) in ["delta", "alpha", "charlie", "bravo"].iter().enumerate() {
        assert!(map.insert(key.to_string(), i as u32));
    }
    assert!(!map.insert("alpha".to_string(), 9));
    let keys: Vec<&String> = (0..map.len()).map(|i| map.key_at(i)).collect();
    assert_eq!(keys, ["alpha", "bravo", "charlie", "delta"]);
    assert_eq!(map.get(&"alpha".to_string()), Some(&9));
    assert_eq!(*map.value_at(3), 0);
    assert!(map.contains_key(&"bravo".to_string()));
    assert!(map.remove(&"bravo".to_string()));
    assert!(!map.remove(&"bravo".to_string()));
    assert_eq!(map.get(&"bravo".to_string()), None);
    assert_eq!(map.len(), 3);
}

#[test]
fn maps_take_in_other_maps() {
    let mut map: OrderedMap<(u32, u32), u64> = OrderedMap::new();
    map.insert((1, 2), 3);
    map.insert((1, 1), 4);
    let mut other = OrderedMap::new();
    other.insert((1, 2), 5);
    other.insert((0, 9), 6);
    map.absorb(&other);
    assert_eq!(map.len(), 3);
    assert_eq!(*map.key_at(0), (0, 9));
    assert_eq!(map.get(&(1, 2)), Some(&5));
    assert_eq!(map.get(&(1, 1)), Some(&4));
}

#[test]
fn sets_hold_each_member_once() {
    let mut set: OrderedSet<u64> = OrderedSet::new();
    set.extend(&vec![7, 3, 7, 1]);
    assert_eq!(set.len(), 3);
    assert_eq!([*set.at(0), *set.at(1), *set.at(2)], [1, 3, 7]);
    assert!(!set.insert(3));
    assert!(set.insert(2));
    assert!(set.contains(&2));
    let mut other = OrderedSet::new();
    other.insert(100);
    other.absorb(&set);
    assert_eq!(other.len(), 5);
}
