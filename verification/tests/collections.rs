use dockspace::collections::{KeyMap, KeySet};
use dockspace::ids::SurfaceId;

#[test]
fn key_sets_keep_one_canonical_copy_of_each_key() {
    let mut set = KeySet::new();
    assert!(set.insert(SurfaceId::new(5)));
    assert!(set.insert(SurfaceId::new(1)));
    assert!(set.insert(SurfaceId::new(3)));
    assert!(!set.insert(SurfaceId::new(3)));
    assert_eq!(set.as_slice(), &[SurfaceId::new(1), SurfaceId::new(3), SurfaceId::new(5)]);
    assert!(set.contains(&SurfaceId::new(3)));
    assert!(!set.contains(&SurfaceId::new(4)));
    assert_eq!(set.len(), 3);
}

#[test]
fn key_maps_refuse_a_second_value_for_a_key() {
    let mut map = KeyMap::new();
    assert!(map.insert_new(SurfaceId::new(2), 20u32));
    assert!(map.insert_new(SurfaceId::new(1), 10u32));
    assert!(!map.insert_new(SurfaceId::new(2), 99u32));
    assert_eq!(map.get(&SurfaceId::new(2)), Some(&20));
    assert_eq!(map.get(&SurfaceId::new(7)), None);
    assert_eq!(map.find(&SurfaceId::new(2)), Some(1));
    assert_eq!(map.entries(), &[(SurfaceId::new(1), 10), (SurfaceId::new(2), 20)]);
    assert!(map.contains_key(&SurfaceId::new(1)));
}

#[test]
fn empty_key_maps_find_nothing() {
    let map: KeyMap<SurfaceId, u32> = KeyMap::new();
    assert!(map.is_empty());
    assert_eq!(map.find(&SurfaceId::new(0)), None);
}
