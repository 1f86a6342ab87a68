use std::collections::hash_map::RandomState;
use std::collections::HashMap;

use multimap::{MultiMap, MultiMapValue};

#[test]
fn create() {
    let _: MultiMap<usize> = MultiMap::with_hasher(RandomState::new());
}

#[test]
fn new() {
    let _: MultiMap<usize> = MultiMap::new();
}

#[test]
fn with_capacity() {
    let _: MultiMap<usize> = MultiMap::with_capacity(20);
}

#[test]
fn insert() {
    let mut m: MultiMap<usize> = MultiMap::new();
    m.insert(1, 3);
}

#[test]
fn insert_identical() {
    let mut m = MultiMap::new();
    m.insert(1, 42);
    m.insert(1, 42);
    assert_eq!(m.get_slice(&1), Some(&vec![42, 42][..]));
}

#[test]
fn insert_many() {
    let mut m: MultiMap<usize> = MultiMap::new();
    m.insert_many(1, vec![3, 4]);
    assert_eq!(Some(&vec![3, 4][..]), m.get_slice(&1));
}

#[test]
fn insert_many_again() {
    let mut m: MultiMap<usize> = MultiMap::new();
    m.insert(1, 2);
    m.insert_many(1, vec![3, 4]);
    assert_eq!(Some(&vec![2, 3, 4][..]), m.get_slice(&1));
}

#[test]
fn insert_many_overlap() {
    let mut m: MultiMap<usize> = MultiMap::new();
    m.insert_many(1, vec![2, 3]);
    m.insert_many(1, vec![3, 4]);
    assert_eq!(Some(&vec![2, 3, 3, 4][..]), m.get_slice(&1));
}

#[test]
fn insert_many_from_slice() {
    let mut m: MultiMap<usize> = MultiMap::new();
    m.insert_many_from_slice(1, &[3, 4]);
    assert_eq!(Some(&vec![3, 4][..]), m.get_slice(&1));
}

#[test]
fn insert_many_from_slice_again() {
    let mut m: MultiMap<usize> = MultiMap::new();
    m.insert(1, 2);
    m.insert_many_from_slice(1, &[3, 4]);
    assert_eq!(Some(&vec![2, 3, 4][..]), m.get_slice(&1));
}

#[test]
fn insert_existing() {
    let mut m: MultiMap<usize> = MultiMap::new();
    m.insert(1, 3);
    m.insert(1, 4);
    assert_eq!(Some(&vec![3, 4][..]), m.get_slice(&1));
}

#[test]
#[should_panic]
fn index_no_entry() {
    let m: MultiMap<usize> = MultiMap::new();
    let _ = m.index(&1);
}

#[test]
fn index() {
    let mut m: MultiMap<usize> = MultiMap::new();
    m.insert(1, 42);
    let values = *m.index(&1);
    assert_eq!(values, 42);
}

#[test]
fn contains_key_true() {
    let mut m: MultiMap<usize> = MultiMap::new();
    m.insert(1, 42);
    assert!(m.contains_key(&1));
}

#[test]
fn contains_key_false() {
    let m: MultiMap<usize> = MultiMap::new();
    assert!(!m.contains_key(&1));
}

#[test]
fn len() {
    let mut m: MultiMap<usize> = MultiMap::new();
    m.insert(1, 42);
    m.insert(2, 1337);
    m.insert(3, 99);
    assert_eq!(m.len(), 3);
}

#[test]
fn remove_not_present() {
    let mut m: MultiMap<usize> = MultiMap::new();
    let v = m.remove(&1);
    assert!(v.is_none());
}

#[test]
fn remove_present() {
    let mut m: MultiMap<usize> = MultiMap::new();
    m.insert(1, 42);
    let v = m.remove(&1);
    assert_eq!(Some(vec![42]), v);
}

#[test]
fn get_not_present() {
    let m: MultiMap<usize> = MultiMap::new();
    assert_eq!(m.get(&1), None);
}

#[test]
fn get_present() {
    let mut m: MultiMap<usize> = MultiMap::new();
    m.insert(1, 42);
    assert_eq!(m.get(&1), Some(&42));
}

#[test]
fn get_empty() {
    let mut m: MultiMap<usize> = MultiMap::new();
    m.insert(1, 42);
    m.remove(&1);
    assert_eq!(m.get(&1), None);
}

#[test]
fn get_slice_not_present() {
    let m: MultiMap<usize> = MultiMap::new();
    assert_eq!(m.get_slice(&1), None);
}

#[test]
fn get_slice_present() {
    let mut m: MultiMap<usize> = MultiMap::new();
    m.insert(1, 42);
    m.insert(1, 1337);
    assert_eq!(Some(&vec![42, 1337][..]), m.get_slice(&1));
}

#[test]
fn capacity() {
    let m: MultiMap<usize> = MultiMap::with_capacity(20);
    assert!(m.capacity() >= 20);
}

#[test]
fn is_empty_true() {
    let m: MultiMap<usize> = MultiMap::new();
    assert!(m.is_empty());
}

#[test]
fn is_empty_false() {
    let mut m: MultiMap<usize> = MultiMap::new();
    m.insert(1, 42);
    assert!(!m.is_empty());
}

#[test]
fn clear() {
    let mut m: MultiMap<usize> = MultiMap::new();
    m.insert(1, 42);
    m.clear();
    assert!(m.is_empty());
}

#[test]
fn get_mut() {
    let mut m: MultiMap<usize> = MultiMap::new();
    m.insert(1, 42);
    if let Some(v) = m.get_mut(&1) {
        *v = 1337;
    }
    assert_eq!(*m.index(&1), 1337)
}

#[test]
fn get_all_mut() {
    let mut m: MultiMap<usize> = MultiMap::new();
    m.insert(1, 42);
    m.insert(1, 1337);
    if let Some(v) = m.get_all_mut(&1) {
        v.push(555);
        (*v.as_slice())[0] = 5;
        (*v.as_slice())[1] = 10;
        (*v.as_slice())[2] = 55;
    }
    assert_eq!(Some(&vec![5, 10, 55][..]), m.get_slice(&1));
}

#[test]
fn get_slice_mut() {
    let mut m: MultiMap<usize> = MultiMap::new();
    m.insert(1, 42);
    m.insert(1, 1337);
    if let Some(v) = m.get_slice_mut(&1) {
        (*v)[0] = 5;
        (*v)[1] = 10;
    }
    assert_eq!(Some(&vec![5, 10][..]), m.get_slice(&1));
}

#[test]
fn get_mut_empty() {
    let mut m: MultiMap<usize> = MultiMap::new();
    m.insert(1, 42);
    m.get_all_mut(&1).and_then(|v| v.pop());
    assert_eq!(m.get_mut(&1), None);
}

#[test]
fn keys() {
    let mut m: MultiMap<usize> = MultiMap::new();
    m.insert(1, 42);
    m.insert(2, 42);
    m.insert(4, 42);
    m.insert(8, 42);

    let keys: Vec<_> = m.keys().into_iter().cloned().collect();
    assert_eq!(keys.len(), 4);
    assert!(keys.contains(&1));
    assert!(keys.contains(&2));
    assert!(keys.contains(&4));
    assert!(keys.contains(&8));
}

#[test]
fn iter() {
    let mut m: MultiMap<usize> = MultiMap::new();
    m.insert(1, 42);
    m.insert(1, 42);
    m.insert(4, 42);
    m.insert(8, 42);

    let mut iter = m.iter();

    for _ in 0..2 {
        assert!(iter.next().is_some());
    }

    let mut count = 0;
    while iter.next().is_some() {
        count += 1;
    }
    assert_eq!(count, 1);
}

#[test]
fn intoiterator_for_reference_type() {
    let mut m: MultiMap<usize> = MultiMap::new();
    m.insert(1, 42);
    m.insert(1, 43);
    m.insert(4, 42);
    m.insert(8, 42);

    let keys = vec![1, 4, 8];

    for (key, value) in m.iter_all() {
        assert!(keys.contains(key));

        if key == &1 {
            assert_eq!(value, &vec![42, 43][..]);
        } else {
            assert_eq!(value, &vec![42][..]);
        }
    }
}

#[test]
fn intoiterator_consuming() {
    let mut m: MultiMap<usize> = MultiMap::new();
    m.insert(1, 42);
    m.insert(1, 43);
    m.insert(4, 42);
    m.insert(8, 42);

    let keys = vec![1, 4, 8];

    for (key, value) in m.iter_all() {
        assert!(keys.contains(&key));

        if key == &1 {
            assert_eq!(value, &vec![42, 43][..]);
        } else {
            assert_eq!(value, &vec![42][..]);
        }
    }
}

#[test]
fn test_fmt_debug() {
    let mut map = MultiMap::new();
    let empty: MultiMap<i32> = MultiMap::new();

    map.insert(1, 2);
    map.insert(1, 5);
    map.insert(1, -1);
    map.insert(3, 4);

    let map_str = map.debug_string();

    assert!(map_str == "{1: [2, 5, -1], 3: [4]}" || map_str == "{3: [4], 1: [2, 5, -1]}");
    assert_eq!(empty.debug_string(), "{}");
}

#[test]
fn test_eq() {
    let mut m1 = MultiMap::new();
    m1.insert(1, 2);
    m1.insert(2, 3);
    m1.insert(3, 4);
    let mut m2 = MultiMap::new();
    m2.insert(1, 2);
    m2.insert(2, 3);
    assert!(!m1.eq(&m2));
    m2.insert(3, 4);
    assert!(m1.eq(&m2));
    m2.insert(3, 4);
    assert!(!m1.eq(&m2));
    m1.insert(3, 4);
    assert!(m1.eq(&m2));
}

#[test]
fn test_eq_empty_key() {
    let mut m1 = MultiMap::new();
    m1.insert(1, 2);
    m1.insert(2, 3);
    let mut m2 = MultiMap::new();
    m2.insert(1, 2);
    m2.insert_many(2, vec![]);
    assert!(!m1.eq(&m2));
    m2.insert_many(2, vec![3]);
    assert!(m1.eq(&m2));
}

#[test]
fn test_default() {
    let _: MultiMap<u8> = Default::default();
}

#[test]
fn test_from_iterator() {
    let vals: Vec<(&str, i64)> = vec![("foo", 123), ("bar", 456), ("foo", 789)];
    let multimap: MultiMap<&str> = MultiMap::from_iter(vals);

    let foo_vals: &[i64] = multimap.get_slice(&"foo").unwrap();
    assert!(foo_vals.contains(&123));
    assert!(foo_vals.contains(&789));

    let bar_vals: &[i64] = multimap.get_slice(&"bar").unwrap();
    assert!(bar_vals.contains(&456));
}

#[test]
fn test_extend_consuming_hashmap() {
    let mut a = MultiMap::new();
    a.insert(1, 42);

    let mut b = HashMap::new();
    b.insert(1, 43);
    b.insert(2, 666);

    a.extend(b.into_iter().collect());

    assert_eq!(a.len(), 2);
    assert_eq!(a.get_slice(&1), Some(&vec![42, 43][..]));
}

#[test]
fn test_extend_ref_hashmap() {
    let mut a = MultiMap::new();
    a.insert(1, 42);

    let mut b = HashMap::new();
    b.insert(1, 43);
    b.insert(2, 666);

    a.extend(b.iter().map(|(&key, &value)| (key, value)).collect());

    assert_eq!(a.len(), 2);
    assert_eq!(a.get_slice(&1), Some(&vec![42, 43][..]));
    assert_eq!(b.len(), 2);
    assert_eq!(b[&1], 43);
}

#[test]
fn test_is_vec() {
    let mut m = MultiMap::new();
    m.insert(1, 42);
    m.insert(1, 1337);
    m.insert(2, 2332);

    assert!(m.is_vec(&1));
    assert!(!m.is_vec(&2));
    assert!(!m.is_vec(&3));
}

#[test]
fn test_macro() {
    let mut manual_map = MultiMap::new();
    manual_map.insert("key1", 42);
    let mut one = MultiMap::with_capacity(1);
    one.insert("key1", 42);
    assert!(manual_map.eq(&one));

    manual_map.insert("key1", 1337);
    manual_map.insert("key2", 2332);
    let mut macro_map = MultiMap::with_capacity(3);
    macro_map.insert("key1", 42);
    macro_map.insert("key1", 1337);
    macro_map.insert("key2", 2332);
    assert!(manual_map.eq(&macro_map));
}

#[test]
fn retain_removes_element() {
    let mut m = MultiMap::new();
    m.insert(1, 42);
    m.insert(1, 99);
    m.retain(|&k, &v| k == 1 && v == 42);
    assert_eq!(1, m.len());
    assert_eq!(Some(&42), m.get(&1));
}

#[test]
fn retain_also_removes_empty_vector() {
    let mut m = MultiMap::new();
    m.insert(1, 42);
    m.insert(1, 99);
    m.insert(2, 42);
    m.retain(|&k, &v| k == 1 && v == 42);
    assert_eq!(1, m.len());
    assert_eq!(Some(&42), m.get(&1));
}
