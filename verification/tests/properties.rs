use bounded_collections::bounded_btree_map::collect_announced;
use bounded_collections::{BoundedBTreeMap, ConstU32, Get, TryCollect};
use std::collections::hash_map::DefaultHasher;
use std::collections::BTreeMap;
use std::hash::{Hash, Hasher};

type SmallMap = BoundedBTreeMap<u32, String, ConstU32<4>>;

fn filled(keys: &[u32]) -> SmallMap {
    let mut map = SmallMap::new();
    for k in keys {
        map.try_insert(*k, format!("v{}", k)).unwrap();
    }
    map
}

fn hash_of<T: Hash>(value: &T) -> u64 {
    let mut hasher = DefaultHasher::new();
    value.hash(&mut hasher);
    hasher.finish()
}

#[test]
fn bound_is_the_number_the_type_supplies() {
    assert_eq!(SmallMap::bound(), 4);
    assert_eq!(BoundedBTreeMap::<u8, u8, ConstU32<0>>::bound(), 0);
    assert_eq!(BoundedBTreeMap::<u8, u8, ConstU32<{ u32::MAX }>>::bound(), u32::MAX as usize);
    assert_eq!(<ConstU32<9> as Get<u32>>::get(), 9);
}

#[test]
fn fits_compares_with_the_bound() {
    assert!(SmallMap::fits(0));
    assert!(SmallMap::fits(4));
    assert!(!SmallMap::fits(5));
    assert!(!BoundedBTreeMap::<u8, u8, ConstU32<0>>::fits(1));
    assert!(BoundedBTreeMap::<u8, u8, ConstU32<0>>::fits(0));
}

#[test]
fn size_stays_within_bound_through_inserts_and_removals() {
    let mut map = SmallMap::new();
    let mut model: BTreeMap<u32, String> = BTreeMap::new();
    let keys = [5u32, 1, 9, 1, 3, 7, 7, 2, 5, 8, 0, 3, 6, 4, 9, 9, 1];
    for (step, k) in keys.iter().enumerate() {
        if step % 3 == 2 {
            assert_eq!(map.remove(k), model.remove(k));
        } else {
            let value = format!("s{}", step);
            let admitted = model.contains_key(k) || model.len() < 4;
            let outcome = map.try_insert(*k, value.clone());
            if admitted {
                assert_eq!(outcome, Ok(model.insert(*k, value)));
            } else {
                assert_eq!(outcome, Err((*k, value)));
            }
        }
        assert!(map.len() <= SmallMap::bound());
        assert_eq!(*map, model);
    }
}

#[test]
fn full_map_returns_a_new_entry_and_stays_as_it_is() {
    let mut map = filled(&[1, 2, 3, 4]);
    let before = map.clone();
    assert!(map.is_full());
    assert_eq!(map.try_insert(9, "nine".to_string()), Err((9, "nine".to_string())));
    assert_eq!(map, before);
    assert_eq!(map.len(), 4);
}

#[test]
fn full_map_overwrites_a_known_key() {
    let mut map = filled(&[1, 2, 3, 4]);
    assert_eq!(map.try_insert(3, "three".to_string()), Ok(Some("v3".to_string())));
    assert_eq!(map.len(), 4);
    assert_eq!(map.get(&3), Some(&"three".to_string()));
    assert!(map.is_full());
}

#[test]
fn map_of_bound_zero_takes_nothing() {
    let mut map = BoundedBTreeMap::<u8, u8, ConstU32<0>>::new();
    assert!(map.is_full());
    assert_eq!(map.try_insert(1, 1), Err((1, 1)));
    assert!(map.is_empty());
}

#[test]
fn try_insert_into_room_returns_none() {
    let mut map = SmallMap::new();
    assert_eq!(map.try_insert(1, "a".to_string()), Ok(None));
    assert!(!map.is_full());
    assert_eq!(map.len(), 1);
}

#[test]
fn remove_and_remove_entry_hand_back_what_was_stored() {
    let mut map = filled(&[1, 2, 3]);
    assert_eq!(map.remove(&2), Some("v2".to_string()));
    assert_eq!(map.remove(&2), None);
    assert_eq!(map.remove_entry(&3), Some((3, "v3".to_string())));
    assert_eq!(map.remove_entry(&3), None);
    assert_eq!(map.len(), 1);
    assert!(map.contains_key(&1));

    // keys may be looked up by what they borrow as
    let mut names = BoundedBTreeMap::<String, u32, ConstU32<2>>::new();
    names.try_insert("a".to_string(), 1).unwrap();
    assert_eq!(names.remove_entry("a"), Some(("a".to_string(), 1)));
    assert_eq!(names.remove("a"), None);
}

#[test]
fn get_mut_writes_one_value() {
    let mut map = filled(&[1, 2]);
    *map.get_mut(&2).unwrap() = "two".to_string();
    assert!(map.get_mut(&7).is_none());
    assert_eq!(map.len(), 2);
    assert_eq!(map.get(&1), Some(&"v1".to_string()));
    assert_eq!(map.get(&2), Some(&"two".to_string()));
}

#[test]
fn retain_removes_and_writes() {
    let mut map: BoundedBTreeMap<u32, u32, ConstU32<5>> =
        [1u32, 2, 3, 4, 5].into_iter().map(|k| (k, k * 10)).try_collect().unwrap();
    let mut seen = Vec::new();
    map.retain(|k, v| {
        seen.push(*k);
        *v += 1;
        k % 2 == 1
    });
    assert_eq!(seen, vec![1, 2, 3, 4, 5]);
    assert_eq!(map.into_inner().into_iter().collect::<Vec<_>>(), vec![(1, 11), (3, 31), (5, 51)]);
}

#[test]
fn clear_empties_the_map() {
    let mut map = filled(&[1, 2, 3, 4]);
    map.clear();
    assert!(map.is_empty());
    assert!(!map.is_full());
    assert_eq!(map, SmallMap::new());
}

#[test]
fn new_and_default_are_empty() {
    assert!(SmallMap::new().is_empty());
    assert!(SmallMap::default().is_empty());
    assert_eq!(SmallMap::new(), SmallMap::default());
}

#[test]
fn try_mutate_checks_once_at_the_end() {
    let map = filled(&[1, 2, 3, 4]);
    // over the bound in between, within it at the end
    let map = map
        .try_mutate(|inner| {
            inner.insert(5, "e".to_string());
            inner.insert(6, "f".to_string());
            inner.remove(&1);
            inner.remove(&2);
        })
        .unwrap();
    assert_eq!(map.keys().copied().collect::<Vec<_>>(), vec![3, 4, 5, 6]);
    assert!(map.try_mutate(|inner| {
        inner.insert(7, "g".to_string());
    })
    .is_none());
}

#[test]
fn conversions_keep_the_entries() {
    let map = filled(&[1, 2]);
    let mut model = BTreeMap::new();
    model.insert(1, "v1".to_string());
    model.insert(2, "v2".to_string());
    assert_eq!(map.as_ref(), &model);
    assert_eq!(&*map, &model);
    assert_eq!(map.clone().into_inner(), model);
    assert_eq!(BTreeMap::from(map.clone()), model);
    assert_eq!(SmallMap::try_from(model.clone()).unwrap(), map);
    let clone = map.clone();
    assert_eq!(clone, map);
}

#[test]
fn try_from_refuses_a_map_over_the_bound() {
    let five: BTreeMap<u32, String> = (0..5u32).map(|k| (k, String::new())).collect();
    assert_eq!(SmallMap::try_from(five), Err(()));
    let four: BTreeMap<u32, String> = (0..4u32).map(|k| (k, String::new())).collect();
    assert_eq!(SmallMap::try_from(four).unwrap().len(), 4);
}

#[test]
fn try_collect_says_why_it_fails() {
    let outcome: Result<SmallMap, &'static str> = (0..5u32).map(|k| (k, String::new())).try_collect();
    assert_eq!(outcome, Err("iterator length too big"));
    let outcome: Result<SmallMap, &'static str> = (0..4u32).map(|k| (k, String::new())).try_collect();
    assert_eq!(outcome.unwrap().len(), 4);
}

#[test]
fn try_collect_takes_nothing_from_an_iterator_that_is_too_long() {
    let mut taken = 0;
    let outcome: Result<BoundedBTreeMap<u32, u32, ConstU32<2>>, _> = (0..3u32)
        .map(|k| {
            taken += 1;
            (k, k)
        })
        .try_collect();
    assert!(outcome.is_err());
    assert_eq!(taken, 0);
}

#[test]
fn try_collect_judges_the_map_where_the_iterator_cannot_tell_its_length() {
    // repeated keys: five items, two entries
    let outcome: Result<BoundedBTreeMap<u32, u32, ConstU32<5>>, _> =
        [1u32, 2, 1, 2, 1].into_iter().map(|k| (k, k)).try_collect();
    assert_eq!(outcome.unwrap().len(), 2);
    // a filter says only that it has no more than three items
    let outcome: Result<BoundedBTreeMap<u32, u32, ConstU32<2>>, _> =
        (0..3u32).filter(|k| *k < 10).map(|k| (k, k)).try_collect();
    assert_eq!(outcome, Err("iterator length too big"));
    let outcome: Result<BoundedBTreeMap<u32, u32, ConstU32<2>>, _> =
        (0..3u32).filter(|k| *k < 2).map(|k| (k, k)).try_collect();
    assert_eq!(outcome.unwrap().len(), 2);
}

#[test]
fn equality_looks_at_the_bound_and_the_entries() {
    let a: BoundedBTreeMap<u32, u32, ConstU32<7>> = [(1u32, 1u32)].into_iter().try_collect().unwrap();
    let b: BoundedBTreeMap<u32, u32, ConstU32<8>> = [(1u32, 1u32)].into_iter().try_collect().unwrap();
    let c: BoundedBTreeMap<u32, u32, ConstU32<7>> = [(1u32, 2u32)].into_iter().try_collect().unwrap();
    let d: BoundedBTreeMap<u32, u32, ConstU32<7>> = [(2u32, 1u32)].into_iter().try_collect().unwrap();
    // same entries under another bound
    assert!(a != b);
    assert!(a != c);
    assert!(a != d);
    assert!(a == a.clone());
    // against a plain map the bound plays no part
    let plain: BTreeMap<u32, u32> = [(1u32, 1u32)].into_iter().collect();
    assert!(a == plain);
    assert!(b == plain);
    assert!(c != plain);
}

#[test]
fn order_is_that_of_the_inner_maps() {
    let a: BoundedBTreeMap<u32, u32, ConstU32<7>> = [(1u32, 1u32)].into_iter().try_collect().unwrap();
    let b: BoundedBTreeMap<u32, u32, ConstU32<7>> = [(1u32, 2u32)].into_iter().try_collect().unwrap();
    let c: BoundedBTreeMap<u32, u32, ConstU32<7>> =
        [(1u32, 1u32), (0u32, 9u32)].into_iter().try_collect().unwrap();
    assert!(a < b);
    assert!(c < a);
    assert_eq!(a.partial_cmp(&b), a.as_ref().partial_cmp(b.as_ref()));
    assert_eq!(a.partial_cmp(&a.clone()), Some(core::cmp::Ordering::Equal));
}

#[test]
fn hash_is_that_of_the_entries() {
    let a: BoundedBTreeMap<u32, u32, ConstU32<7>> = [(1u32, 1u32), (5, 6)].into_iter().try_collect().unwrap();
    let b: BoundedBTreeMap<u32, u32, ConstU32<9>> = [(1u32, 1u32), (5, 6)].into_iter().try_collect().unwrap();
    let plain: BTreeMap<u32, u32> = [(1u32, 1u32), (5, 6)].into_iter().collect();
    assert_eq!(hash_of(&a), hash_of(&plain));
    assert_eq!(hash_of(&a), hash_of(&b));
    assert_ne!(hash_of(&a), hash_of(&BTreeMap::<u32, u32>::new()));
}

#[test]
fn iterating_by_reference_goes_in_key_order() {
    let mut map = filled(&[3, 1, 2]);
    let mut keys = Vec::new();
    for (k, _) in &map {
        keys.push(*k);
    }
    assert_eq!(keys, vec![1, 2, 3]);
    for (_, v) in &mut map {
        v.push('!');
    }
    assert_eq!(map.get(&2), Some(&"v2!".to_string()));
    for (_, v) in map.iter_mut() {
        v.push('?');
    }
    assert_eq!(map.get(&3), Some(&"v3!?".to_string()));
    assert_eq!(map.len(), 3);
}

#[test]
fn map_visits_keys_in_ascending_order_and_keeps_them() {
    let map = filled(&[4, 2, 3, 1]);
    let mut seen = Vec::new();
    let mapped = map.map(|(k, v)| {
        seen.push(*k);
        v.len() as u32 + *k
    });
    assert_eq!(seen, vec![1, 2, 3, 4]);
    assert_eq!(mapped.len(), 4);
    assert!(mapped.is_full());
    assert_eq!(mapped.into_inner().into_iter().collect::<Vec<_>>(), vec![(1, 3), (2, 4), (3, 5), (4, 6)]);
}

#[test]
fn try_map_returns_the_error_of_the_least_failing_key() {
    let map = filled(&[4, 2, 3, 1]);
    let mut seen = Vec::new();
    let outcome = map.try_map(|(k, _)| {
        seen.push(*k);
        if *k >= 2 {
            Err(*k)
        } else {
            Ok(())
        }
    });
    assert_eq!(outcome, Err(2));
    assert_eq!(seen, vec![1, 2]);
}

#[test]
fn try_map_of_an_empty_map_is_empty() {
    let map = SmallMap::new();
    let outcome = map.try_map(|(_, _)| Err::<u8, u8>(1));
    assert_eq!(outcome.unwrap().len(), 0);
}

#[test]
fn debug_shows_the_entries_and_the_bound() {
    let a: BoundedBTreeMap<u32, u32, ConstU32<7>> = [(1u32, 2u32), (3, 4)].into_iter().try_collect().unwrap();
    assert_eq!(format!("{:?}", a), "BoundedBTreeMap({1: 2, 3: 4}, 7)");
    assert_eq!(format!("{:?}", BoundedBTreeMap::<u8, u8, ConstU32<0>>::new()), "BoundedBTreeMap({}, 0)");
}

#[test]
fn try_collect_leaves_an_iterator_that_is_too_long_where_it_stands() {
    let mut it = vec![(1u32, 1u32), (2, 2), (3, 3), (4, 4), (5, 5)].into_iter();
    let outcome: Result<BoundedBTreeMap<u32, u32, ConstU32<4>>, _> = it.by_ref().try_collect();
    assert_eq!(outcome, Err("iterator length too big"));
    assert_eq!(it.len(), 5);
    assert_eq!(it.next(), Some((1, 1)));
}

#[test]
fn try_collect_at_and_over_the_bound() {
    let items = vec![(2u32, ()), (3, ()), (4, ()), (5, ())];
    let at: Result<BoundedBTreeMap<u32, (), ConstU32<4>>, _> = items.clone().into_iter().try_collect();
    assert_eq!(at.unwrap().keys().copied().collect::<Vec<_>>(), vec![2, 3, 4, 5]);
    let over: Result<BoundedBTreeMap<u32, (), ConstU32<3>>, _> = items.clone().into_iter().try_collect();
    assert_eq!(over, Err("iterator length too big"));
    let sorted: Result<BoundedBTreeMap<u32, (), ConstU32<5>>, _> =
        items.into_iter().rev().skip(2).try_collect();
    assert_eq!(sorted.unwrap().keys().copied().collect::<Vec<_>>(), vec![2, 3]);
}

#[test]
fn collect_announced_goes_by_the_announced_length_first() {
    type Small = BoundedBTreeMap<u32, u32, ConstU32<2>>;
    // announced beyond the bound: refused, and nothing is taken
    let mut taken = 0;
    let items = [(1u32, 1u32)].into_iter().map(|item| {
        taken += 1;
        item
    });
    let outcome: Result<Small, _> = collect_announced(3, items);
    assert_eq!(outcome, Err("iterator length too big"));
    assert_eq!(taken, 0);
    // announced within the bound: the collected map decides
    let outcome: Result<Small, _> = collect_announced(0, [(1u32, 1u32), (2, 2), (3, 3)].into_iter());
    assert_eq!(outcome, Err("iterator length too big"));
    let outcome: Result<Small, _> = collect_announced(2, [(2u32, 7u32), (1, 8)].into_iter());
    assert_eq!(outcome.unwrap().into_inner().into_iter().collect::<Vec<_>>(), vec![(1, 8), (2, 7)]);
    // as many items as one likes, where the keys are few
    let outcome: Result<Small, _> = collect_announced(2, [(1u32, 1u32), (1, 2), (2, 3), (1, 4)].into_iter());
    let map = outcome.unwrap();
    assert_eq!(map.len(), 2);
    assert_eq!(map.get(&1), Some(&4));
}
