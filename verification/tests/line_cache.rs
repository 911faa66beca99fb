use toss::document::line_cache::LineCache;
use toss::line::Line;

fn make_line(text: &str) -> Line {
    Line::new(0, text.to_string())
}

#[test]
fn insert_and_get() {
    let mut cache = LineCache::new(10);
    cache.insert(0, make_line("hello"));
    cache.insert(5, make_line("world"));
    assert_eq!(cache.get(0).unwrap().raw(), "hello");
    assert_eq!(cache.get(5).unwrap().raw(), "world");
    assert!(cache.get(1).is_none());
}

#[test]
fn eviction_at_capacity() {
    let mut cache = LineCache::new(2);
    cache.insert(0, make_line("a"));
    cache.insert(1, make_line("b"));
    // Full: a third line evicts the oldest.
    cache.insert(2, make_line("c"));
    assert!(cache.get(0).is_none());
    assert_eq!(cache.get(1).unwrap().raw(), "b");
    assert_eq!(cache.get(2).unwrap().raw(), "c");
}

#[test]
fn reinserting_updates_and_refreshes() {
    let mut cache = LineCache::new(2);
    cache.insert(0, make_line("a"));
    cache.insert(1, make_line("b"));
    cache.insert(0, make_line("a2"));
    cache.insert(2, make_line("c"));
    assert_eq!(cache.get(0).unwrap().raw(), "a2");
    assert!(cache.get(1).is_none());
    assert_eq!(cache.get(2).unwrap().raw(), "c");
}

#[test]
fn get_refreshes_access_order() {
    let mut cache = LineCache::new(2);
    cache.insert(0, make_line("a"));
    cache.insert(1, make_line("b"));
    cache.get(0);
    cache.insert(2, make_line("c"));
    assert_eq!(cache.get(0).unwrap().raw(), "a");
    assert!(cache.get(1).is_none());
    assert_eq!(cache.get(2).unwrap().raw(), "c");
}

#[test]
fn insert_returns_the_line_and_zero_capacity_keeps_one() {
    let mut cache = LineCache::new(0);
    assert_eq!(cache.insert(3, make_line("x")).raw(), "x");
    cache.insert(4, make_line("y"));
    assert!(cache.get(3).is_none());
    assert_eq!(cache.get(4).unwrap().raw(), "y");
}
