use std::cell::Cell;
use std::rc::Rc;

use toss::minilib::lru_cache::{Entry, LruCache};

#[test]
fn insert_items() {
    let mut lru = LruCache::<usize, i16>::new(3);
    lru.insert(1, -1);
    lru.insert(2, -2);
    assert_eq!(lru.to_vec(), vec![&-2, &-1]);

    lru.insert(3, -3);
    assert_eq!(lru.to_vec(), vec![&-3, &-2, &-1]);
    lru.insert(4, -4);
    assert_eq!(lru.to_vec(), vec![&-4, &-3, &-2]);
}

#[test]
fn get_items_with_updating_order() {
    let mut lru = LruCache::<usize, i16>::new(3);
    lru.insert(1, -1);
    lru.insert(2, -2);
    assert_eq!(lru.to_vec(), vec![&-2, &-1]);

    assert_eq!(lru.get(&2), Some(&-2));
    assert_eq!(lru.get(&1), Some(&-1));
    assert_eq!(lru.to_vec(), vec![&-1, &-2]);

    assert_eq!(lru.get(&3), None);
}

#[test]
fn get_and_insert_via_entry_api() {
    let mut lru = LruCache::<usize, i16>::new(3);
    lru.insert(1, -1);
    lru.insert(2, -2);
    assert_eq!(lru.to_vec(), vec![&-2, &-1]);

    match lru.entry(1) {
        Entry::Occupied(entry) => {
            assert_eq!(entry.into_mut(), &mut -1);
        }
        Entry::Vacant(_) => panic!("entry 1 should exist"),
    }
    assert_eq!(lru.to_vec(), vec![&-1, &-2]);

    match lru.entry(3) {
        Entry::Occupied(_) => panic!("entry 3 should not exist"),
        Entry::Vacant(entry) => entry.insert(-3),
    };
    assert_eq!(lru.to_vec(), vec![&-3, &-1, &-2]);

    match lru.entry(4) {
        Entry::Occupied(_) => panic!("entry 4 should not exist"),
        Entry::Vacant(entry) => entry.insert(-4),
    };
    assert_eq!(lru.to_vec(), vec![&-4, &-3, &-1]);
    assert_eq!(lru.last_removed(), Some((2, -2)));
}

struct Item(Rc<Cell<bool>>);

impl Item {
    fn new() -> (Self, Rc<Cell<bool>>) {
        let dropped = Rc::new(Cell::new(false));
        let foo = Self(dropped.clone());
        (foo, dropped)
    }
}

impl Drop for Item {
    fn drop(&mut self) {
        self.0.set(true);
    }
}

#[test]
fn drop_all_items() {
    let (item1, dropped1) = Item::new();
    let (item2, dropped2) = Item::new();
    let (item3, dropped3) = Item::new();
    let (item4, dropped4) = Item::new();
    let flags = || {
        [
            dropped1.get(),
            dropped2.get(),
            dropped3.get(),
            dropped4.get(),
        ]
    };

    {
        let mut lru = LruCache::<usize, Item>::new(2);
        lru.insert(1, item1);
        lru.insert(2, item2);
        assert_eq!(flags(), [false, false, false, false]);

        // This removes the first item but it is still alive.
        lru.insert(3, item3);
        assert_eq!(flags(), [false, false, false, false]);

        // But once we consume it, the first item will be dropped.
        assert_eq!(lru.last_removed().map(|t| t.0), Some(1));
        assert_eq!(flags(), [true, false, false, false]);

        // The second item is detached but alive.
        lru.insert(4, item4);
        assert_eq!(flags(), [true, false, false, false]);
    }
    // If the LruCache itself is dropped, all items are dropped.
    assert_eq!(flags(), [true, true, true, true]);
}

#[test]
fn lru_cache_update_moves_the_key_to_the_front() {
    let mut lru = LruCache::<usize, i16>::new(2);
    lru.insert(1, -1);
    lru.insert(2, -2);
    lru.insert(1, 10);
    assert_eq!(lru.to_vec(), vec![&10, &-2]);
    assert_eq!(lru.last_removed(), None);
    // The next new key pushes out key 2, the least recently used.
    lru.insert(3, -3);
    assert_eq!(lru.to_vec(), vec![&-3, &10]);
    assert_eq!(lru.last_removed(), Some((2, -2)));
    assert_eq!(lru.last_removed(), None);
}

#[test]
fn lru_cache_get_after_insert_finds_the_value() {
    let mut lru = LruCache::<usize, &str>::new(1);
    lru.insert(7, "seven");
    assert_eq!(lru.get(&7), Some(&"seven"));
    lru.insert(8, "eight");
    assert_eq!(lru.get(&7), None);
    assert_eq!(lru.get(&8), Some(&"eight"));
    assert_eq!(lru.last_removed(), Some((7, "seven")));
}

#[test]
fn lru_cache_entry_value_can_be_changed_in_place() {
    let mut lru = LruCache::<usize, i16>::new(2);
    lru.insert(1, -1);
    lru.insert(2, -2);
    match lru.entry(1) {
        Entry::Occupied(entry) => *entry.into_mut() = 100,
        Entry::Vacant(_) => panic!("entry 1 should exist"),
    }
    assert_eq!(lru.to_vec(), vec![&100, &-2]);
    match lru.entry(5) {
        Entry::Occupied(_) => panic!("entry 5 should not exist"),
        Entry::Vacant(entry) => *entry.insert(5) += 1,
    }
    assert_eq!(lru.to_vec(), vec![&6, &100]);
    assert_eq!(lru.last_removed(), Some((2, -2)));
}
